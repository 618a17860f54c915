//! The decisions behind the JSON API: which contacts a listing shows and
//! in what order, and how an error is answered.

use vstd::prelude::*;
use crate::dav::{card_views, DavCard, DavCardView};
use crate::text::{
    chars_lt, chars_of, lemma_seq_lt_asymmetric, lemma_seq_lt_irreflexive, lemma_seq_lt_total,
    lemma_seq_lt_transitive, opt_chars, seq_lt, to_lowercase, unicode_lowercase,
};
use crate::vcard::{
    contact_from_vcard, contact_spec, parse, parse_spec, vcard_from_input, vcard_text, Contact,
    ContactInput, ContactView,
};

verus! {

// ---------------------------------------------------------------------
// Errors
// ---------------------------------------------------------------------

/// Why a request failed: the contact does not exist, or the CardDAV
/// server could not be worked with (with the error's message).
pub enum AppError {
    NotFound,
    Internal(String),
}

impl AppError {
    /// The HTTP status the error is answered with: 404 for a missing
    /// contact, 502 (bad gateway) for a failure of the CardDAV server.
    pub fn status_code(&self) -> (code: u16)
        ensures
            code == (match self {
                AppError::NotFound => 404u16,
                AppError::Internal(_) => 502u16,
            }),
    {
        match self {
            AppError::NotFound => 404,
            AppError::Internal(_) => 502,
        }
    }

    /// The text of the `error` field of the JSON answer.
    pub fn error_message(&self) -> (m: String)
        ensures
            match self {
                AppError::NotFound => m@ == "not found"@,
                AppError::Internal(msg) => m@ == msg@,
            },
    {
        match self {
            AppError::NotFound => String::from_str("not found"),
            AppError::Internal(msg) => msg.clone(),
        }
    }
}

/// The answer to a request to delete a contact, given whether the CardDAV
/// server had it: 204 (no content) once it is gone, not found otherwise.
pub fn delete_answer(deleted: bool) -> (r: Result<u16, AppError>)
    ensures
        deleted ==> r == Ok::<u16, AppError>(204),
        !deleted ==> r matches Err(AppError::NotFound),
{
    if deleted {
        Ok(204)
    } else {
        Err(AppError::NotFound)
    }
}

// ---------------------------------------------------------------------
// Contacts from cards
// ---------------------------------------------------------------------

/// The contact a stored card describes.
pub open spec fn card_contact(card: DavCardView) -> ContactView {
    contact_spec(card.uid, parse_spec(card.vcard_text))
}

pub open spec fn card_contacts(cards: Seq<DavCardView>) -> Seq<ContactView> {
    cards.map_values(|c: DavCardView| card_contact(c))
}

pub open spec fn contact_views(cs: Seq<Contact>) -> Seq<ContactView> {
    cs.map_values(|c: Contact| c@)
}

/// The contact a stored card describes.
pub fn contact_from_card(card: &DavCard) -> (c: Contact)
    ensures
        c@ == card_contact(card@),
{
    let vc = parse(card.vcard_text.as_str());
    contact_from_vcard(card.uid.as_str(), &vc)
}

/// The contact that the vCard text `text`, stored under `uid`, describes:
/// what a create or an update answers with, read back from what it wrote.
pub fn contact_from_text(uid: &str, text: &str) -> (c: Contact)
    ensures
        c@ == contact_spec(uid@, parse_spec(text@)),
{
    let vc = parse(text);
    contact_from_vcard(uid, &vc)
}

/// What an update of the contact stored under `uid` sends, given the card
/// the server holds for it: not found when it holds none; otherwise the
/// vCard text written for `input`, and the held card's etag to be sent
/// back as If-Match.
pub fn update_request(uid: &str, input: &ContactInput, existing: Option<DavCard>) -> (r: Result<
    (String, Option<String>),
    AppError,
>)
    ensures
        existing is None ==> r matches Err(AppError::NotFound),
        existing matches Some(card) ==> (r matches Ok((text, etag)) && text@ == vcard_text(
            uid@,
            input@,
        ) && opt_chars(etag) == card@.etag),
{
    match existing {
        None => Err(AppError::NotFound),
        Some(card) => Ok((vcard_from_input(uid, input), card.etag)),
    }
}

/// What contacts are listed by: the full name, lower-cased.
pub open spec fn sort_key(c: ContactView) -> Seq<char> {
    unicode_lowercase(c.full_name)
}

/// The contacts whose sort key is `k`, in order.
pub open spec fn with_key(cs: Seq<ContactView>, k: Seq<char>) -> Seq<ContactView> {
    cs.filter(|c: ContactView| sort_key(c) == k)
}

/// No contact comes after one whose sort key is greater.
pub open spec fn sorted_by_key(cs: Seq<ContactView>) -> bool {
    forall|a: int, b: int|
        0 <= a < b < cs.len() ==> !seq_lt(#[trigger] sort_key(cs[b]), #[trigger] sort_key(cs[a]))
}

proof fn lemma_with_key_none(s: Seq<ContactView>, k: Seq<char>)
    requires
        forall|m: int| 0 <= m < s.len() ==> sort_key(#[trigger] s[m]) != k,
    ensures
        with_key(s, k) == Seq::<ContactView>::empty(),
    decreases s.len(),
{
    reveal(Seq::filter);
    if s.len() > 0 {
        lemma_with_key_none(s.drop_last(), k);
    }
}

proof fn lemma_with_key_push(s: Seq<ContactView>, x: ContactView, k: Seq<char>)
    ensures
        with_key(s.push(x), k) == (if sort_key(x) == k {
            with_key(s, k).push(x)
        } else {
            with_key(s, k)
        }),
{
    reveal(Seq::filter);
    assert(s.push(x).drop_last() =~= s);
}

proof fn lemma_with_key_insert(s: Seq<ContactView>, j: int, x: ContactView, k: Seq<char>)
    requires
        0 <= j <= s.len(),
        forall|m: int| j <= m < s.len() ==> sort_key(#[trigger] s[m]) != sort_key(x),
    ensures
        with_key(s.insert(j, x), k) == (if sort_key(x) == k {
            with_key(s, k).push(x)
        } else {
            with_key(s, k)
        }),
{
    let pre = s.take(j);
    let post = s.skip(j);
    assert(s.insert(j, x) =~= pre.push(x) + post);
    assert(s =~= pre + post);
    Seq::filter_distributes_over_add(pre.push(x), post, |c: ContactView| sort_key(c) == k);
    Seq::filter_distributes_over_add(pre, post, |c: ContactView| sort_key(c) == k);
    lemma_with_key_push(pre, x, k);
    if sort_key(x) == k {
        assert forall|m: int| 0 <= m < post.len() implies sort_key(#[trigger] post[m]) != k by {
            assert(post[m] == s[j + m]);
        }
        lemma_with_key_none(post, k);
        assert(with_key(pre, k).push(x) + Seq::<ContactView>::empty() =~= (with_key(pre, k)
            + Seq::<ContactView>::empty()).push(x));
    } else {
    }
}

/// The contacts that `cards` describe, listed by full name, lower-cased
/// (a stable sort: contacts with equal sort keys keep the order of their
/// cards).
pub fn contacts_from_cards(cards: &Vec<DavCard>) -> (contacts: Vec<Contact>)
    ensures
        contacts@.len() == cards@.len(),
        sorted_by_key(contact_views(contacts@)),
        forall|k: Seq<char>|
            #[trigger] with_key(contact_views(contacts@), k) == with_key(
                card_contacts(card_views(cards@)),
                k,
            ),
{
    let ghost all = card_contacts(card_views(cards@));
    let mut out: Vec<Contact> = Vec::new();
    let mut keys: Vec<Vec<char>> = Vec::new();
    let mut i: usize = 0;
    proof {
        reveal(Seq::filter);
        assert(contact_views(out@) =~= Seq::<ContactView>::empty());
        assert(all.take(0) =~= Seq::<ContactView>::empty());
    }
    while i < cards.len()
        invariant
            i <= cards@.len(),
            all == card_contacts(card_views(cards@)),
            out@.len() == i,
            keys@.len() == i,
            forall|m: int| 0 <= m < i ==> (#[trigger] keys@[m])@ == sort_key(out@[m]@),
            sorted_by_key(contact_views(out@)),
            forall|k: Seq<char>|
                #[trigger] with_key(contact_views(out@), k) == with_key(all.take(i as int), k),
        decreases cards@.len() - i,
    {
        let c = contact_from_card(&cards[i]);
        let key = chars_of(to_lowercase(c.full_name.as_str()).as_str());
        assert(key@ == sort_key(c@));
        let mut j: usize = 0;
        while j < keys.len() && !chars_lt(&key, &keys[j])
            invariant
                j <= keys@.len(),
                forall|m: int| 0 <= m < j ==> !seq_lt(key@, (#[trigger] keys@[m])@),
            decreases keys@.len() - j,
        {
            j += 1;
        }
        let ghost views = contact_views(out@);
        let ghost old_keys = keys@;
        let ghost old_out = out@;
        proof {
            // Everything from `j` on has a greater key than the new contact.
            assert forall|m: int| j <= m < i implies seq_lt(key@, (#[trigger] keys@[m])@) by {
                assert(seq_lt(key@, keys@[j as int]@));
                if m > j {
                    assert(!seq_lt(sort_key(views[m]), sort_key(views[j as int])));
                    lemma_seq_lt_total(keys@[j as int]@, keys@[m]@);
                    lemma_seq_lt_transitive(key@, keys@[j as int]@, keys@[m]@);
                }
            }
        }
        out.insert(j, c);
        keys.insert(j, key);
        proof {
            old_keys.insert_ensures(j as int, key);
            old_out.insert_ensures(j as int, c);
            let new_views = contact_views(out@);
            assert(new_views =~= views.insert(j as int, c@));
            views.insert_ensures(j as int, c@);
            assert forall|m: int| 0 <= m < i + 1 implies (#[trigger] keys@[m])@ == sort_key(
                out@[m]@,
            ) by {
                if m > j {
                    assert(keys@[m] == old_keys[m - 1]);
                    assert(out@[m] == old_out[m - 1]);
                }
            }
            assert forall|a: int, b: int| 0 <= a < b < new_views.len() implies !seq_lt(
                #[trigger] sort_key(new_views[b]),
                #[trigger] sort_key(new_views[a]),
            ) by {
                if b < j {
                    assert(new_views[a] == views[a] && new_views[b] == views[b]);
                } else if b == j {
                    assert(new_views[a] == views[a]);
                    assert(!seq_lt(key@, old_keys[a]@));
                } else if a == j {
                    assert(new_views[b] == views[b - 1]);
                    assert(seq_lt(key@, old_keys[b - 1]@));
                    lemma_seq_lt_asymmetric(key@, old_keys[b - 1]@);
                } else if a < j {
                    assert(new_views[a] == views[a] && new_views[b] == views[b - 1]);
                } else {
                    assert(new_views[a] == views[a - 1] && new_views[b] == views[b - 1]);
                }
            }
            assert forall|m: int| j <= m < views.len() implies sort_key(#[trigger] views[m])
                != sort_key(c@) by {
                assert(seq_lt(key@, old_keys[m]@));
                lemma_seq_lt_irreflexive(key@);
            }
            assert(all.take(i + 1) =~= all.take(i as int).push(all[i as int]));
            assert(all[i as int] == c@);
            assert forall|k: Seq<char>| #[trigger]
                with_key(new_views, k) == with_key(all.take(i + 1), k) by {
                lemma_with_key_insert(views, j as int, c@, k);
                lemma_with_key_push(all.take(i as int), c@, k);
            }
        }
        i += 1;
    }
    proof {
        assert(all.take(cards@.len() as int) =~= all);
    }
    out
}

/// The contacts of `cs` whose full name, lower-cased, is `k`, in order.
pub open spec fn named_lowercase(cs: Seq<ContactView>, k: Seq<char>) -> Seq<ContactView> {
    cs.filter(|c: ContactView| unicode_lowercase(c.full_name) == k)
}

/// The listing order, for every result that `contacts_from_cards` may
/// give for `cards`: no contact comes after one whose whole full name,
/// lower-cased, is greater in string order; and the contacts with the same
/// lower-cased full name are exactly those of the cards, in card order.
pub proof fn law_listing_order(cards: Seq<DavCardView>, listed: Seq<ContactView>)
    requires
        listed.len() == cards.len(),
        sorted_by_key(listed),
        forall|k: Seq<char>| #[trigger] with_key(listed, k) == with_key(card_contacts(cards), k),
    ensures
        forall|a: int, b: int|
            0 <= a < b < listed.len() ==> !seq_lt(
                unicode_lowercase(#[trigger] listed[b].full_name),
                unicode_lowercase(#[trigger] listed[a].full_name),
            ),
        forall|k: Seq<char>|
            #[trigger] named_lowercase(listed, k) == named_lowercase(card_contacts(cards), k),
{
    assert forall|a: int, b: int| 0 <= a < b < listed.len() implies !seq_lt(
        unicode_lowercase(#[trigger] listed[b].full_name),
        unicode_lowercase(#[trigger] listed[a].full_name),
    ) by {
        assert(!seq_lt(sort_key(listed[b]), sort_key(listed[a])));
    }
    assert forall|k: Seq<char>|
        #[trigger] named_lowercase(listed, k) == named_lowercase(card_contacts(cards), k) by {
        let f = |c: ContactView| unicode_lowercase(c.full_name) == k;
        let g = |c: ContactView| sort_key(c) == k;
        assert(f =~= g);
        assert(with_key(listed, k) == with_key(card_contacts(cards), k));
        assert(listed.filter(f) == with_key(listed, k));
        assert(card_contacts(cards).filter(f) == with_key(card_contacts(cards), k));
    }
}

} // verus!
