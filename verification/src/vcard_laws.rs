//! Properties of the vCard code: escaping and unescaping undo each other
//! and escaped values have a fixed shape, `get` finds the first of what
//! `get_all` finds, unfolding and the name/value split are described
//! without their recursion, the written vCard has a fixed line structure,
//! and reading back the vCard written for a contact gives the contact as
//! written (name parts without ';', empty optional fields absent).

use vstd::prelude::*;
use crate::text::{
    after_last, ascii_lower, ends_with, eq_ignore_ascii_case, is_whitespace, split_on, starts_with,
    take_until, trim, trim_end, trim_start, upper_seq,
};
use crate::vcard::{
    colon_from, crlf_text, escape, escape_char, is_continuation, is_marker_line, lookup, named,
    normalize_newlines, optional_line, parse_line, parse_lines, prefixed_lines, property_name,
    name_line, unescape, unescape_char, unfold_lines, unfold_segments, unwrap_or_empty, values,
    vcard_lines, value_colon, contact_spec, non_empty, parse_spec, vcard_text, ContactInputView, ContactView,
    PropertyView,
};

verus! {

// ---------------------------------------------------------------------
// Escaping
// ---------------------------------------------------------------------

proof fn lemma_unescape_escape_prefix(a: Seq<char>, b: Seq<char>)
    ensures
        unescape(escape(a) + b) == a + unescape(b),
    decreases a.len(),
{
    if a.len() == 0 {
        assert(escape(a) + b =~= b);
        assert(a + unescape(b) =~= unescape(b));
    } else {
        let c = a[0];
        let rest = escape(a.drop_first()) + b;
        lemma_unescape_escape_prefix(a.drop_first(), b);
        assert(escape(a) + b =~= escape_char(c) + rest);
        if c == '\\' || c == '\n' || c == ',' || c == ';' {
            let s = escape_char(c) + rest;
            assert(s[0] == '\\');
            assert(s.skip(2) =~= rest);
            assert(unescape_char(s[1]) == c);
        } else {
            let s = escape_char(c) + rest;
            assert(s.drop_first() =~= rest);
        }
        assert(a =~= seq![c] + a.drop_first());
        assert(seq![c] + (a.drop_first() + unescape(b)) =~= a + unescape(b));
    }
}

/// Unescaping an escaped value gives the value back.
pub proof fn law_unescape_escape(s: Seq<char>)
    ensures
        unescape(escape(s)) == s,
{
    lemma_unescape_escape_prefix(s, Seq::empty());
    assert(escape(s) + Seq::<char>::empty() =~= escape(s));
    assert(s + Seq::<char>::empty() =~= s);
}

/// A value without backslashes is its own unescaping.
proof fn lemma_unescape_plain(s: Seq<char>)
    requires
        forall|i: int| 0 <= i < s.len() ==> s[i] != '\\',
    ensures
        unescape(s) == s,
    decreases s.len(),
{
    if s.len() > 0 {
        lemma_unescape_plain(s.drop_first());
        assert(s =~= seq![s[0]] + s.drop_first());
    }
}

// ---------------------------------------------------------------------
// Looking up properties
// ---------------------------------------------------------------------

/// The first property called `name` is the first of all properties
/// called `name`; there is none exactly when there are none at all.
pub proof fn law_lookup_is_first_named(props: Seq<PropertyView>, name: Seq<char>)
    ensures
        lookup(props, name) == (if named(props, name).len() > 0 {
            Some(named(props, name)[0])
        } else {
            None
        }),
    decreases props.len(),
{
    if props.len() > 0 {
        let rest = props.drop_first();
        law_lookup_is_first_named(rest, name);
        assert(props =~= seq![props[0]] + rest);
        rest.lemma_filter_prepend(props[0], |p: PropertyView| p.name == name);
    } else {
        reveal(Seq::filter);
    }
}

// ---------------------------------------------------------------------
// Unfolding a CRLF-terminated text
// ---------------------------------------------------------------------

pub open spec fn has_no(s: Seq<char>, c: char) -> bool {
    forall|i: int| 0 <= i < s.len() ==> s[i] != c
}

proof fn lemma_normalize_plain(s: Seq<char>)
    requires
        has_no(s, '\n'),
    ensures
        normalize_newlines(s) == s,
    decreases s.len(),
{
    if s.len() > 0 {
        lemma_normalize_plain(s.drop_first());
        assert(s =~= seq![s[0]] + s.drop_first());
    }
}

proof fn lemma_normalize_append(a: Seq<char>, b: Seq<char>)
    requires
        !(a.len() > 0 && a.last() == '\r' && b.len() > 0 && b[0] == '\n'),
    ensures
        normalize_newlines(a + b) == normalize_newlines(a) + normalize_newlines(b),
    decreases a.len(),
{
    let ab = a + b;
    if a.len() == 0 {
        assert(ab =~= b);
        assert(Seq::<char>::empty() + normalize_newlines(b) =~= normalize_newlines(b));
    } else if a.len() >= 2 && a[0] == '\r' && a[1] == '\n' {
        assert(ab.skip(2) =~= a.skip(2) + b);
        lemma_normalize_append(a.skip(2), b);
        assert(seq!['\n'] + (normalize_newlines(a.skip(2)) + normalize_newlines(b)) =~= (seq![
            '\n',
        ] + normalize_newlines(a.skip(2))) + normalize_newlines(b));
    } else if a.len() == 1 {
        assert(ab.drop_first() =~= b);
        assert(!(ab.len() >= 2 && ab[0] == '\r' && ab[1] == '\n'));
        assert(a.drop_first() =~= Seq::<char>::empty());
        assert(normalize_newlines(a) =~= seq![a[0]]);
    } else {
        assert(ab.drop_first() =~= a.drop_first() + b);
        lemma_normalize_append(a.drop_first(), b);
        assert(seq![a[0]] + (normalize_newlines(a.drop_first()) + normalize_newlines(b)) =~= (seq![
            a[0],
        ] + normalize_newlines(a.drop_first())) + normalize_newlines(b));
    }
}

/// Lines, each terminated by a bare "\n".
pub open spec fn nl_text(lines: Seq<Seq<char>>) -> Seq<char>
    decreases lines.len(),
{
    if lines.len() == 0 {
        Seq::empty()
    } else {
        nl_text(lines.drop_last()) + lines.last() + seq!['\n']
    }
}

/// A logical line that unfolds as itself: non-empty, without a line
/// break, and not starting as a continuation.
pub open spec fn plain_line(l: Seq<char>) -> bool {
    &&& l.len() > 0
    &&& has_no(l, '\n')
    &&& !is_continuation(l)
}

proof fn lemma_crlf_text_shape(lines: Seq<Seq<char>>)
    ensures
        crlf_text(lines).len() > 0 ==> crlf_text(lines).last() == '\n',
        nl_text(lines).len() > 0 ==> nl_text(lines).last() == '\n',
{
    reveal_strlit("\r\n");
}

proof fn lemma_normalize_crlf(lines: Seq<Seq<char>>)
    requires
        forall|i: int| 0 <= i < lines.len() ==> has_no(#[trigger] lines[i], '\n'),
    ensures
        normalize_newlines(crlf_text(lines)) == nl_text(lines),
    decreases lines.len(),
{
    reveal_strlit("\r\n");
    if lines.len() > 0 {
        let p = lines.drop_last();
        let l = lines.last();
        lemma_normalize_crlf(p);
        lemma_crlf_text_shape(p);
        let crlf = "\r\n"@;
        assert(crlf =~= seq!['\r', '\n']);
        assert(crlf_text(lines) =~= crlf_text(p) + (l + crlf));
        lemma_normalize_append(crlf_text(p), l + crlf);
        lemma_normalize_append(l, crlf);
        lemma_normalize_plain(l);
        assert(crlf.skip(2) =~= Seq::<char>::empty());
        assert(crlf.len() == 2 && crlf[0] == '\r' && crlf[1] == '\n');
        assert(normalize_newlines(crlf.skip(2)) =~= Seq::<char>::empty());
        assert(normalize_newlines(crlf) =~= seq!['\n']);
        assert(nl_text(lines) =~= nl_text(p) + (l + seq!['\n']));
    }
}

proof fn lemma_split_append_plain(s: Seq<char>, l: Seq<char>, sep: char)
    requires
        has_no(l, sep),
    ensures
        split_on(s + l, sep) == split_on(s, sep).update(
            split_on(s, sep).len() - 1,
            split_on(s, sep).last() + l,
        ),
    decreases l.len(),
{
    crate::text::lemma_split_on_nonempty(s, sep);
    let q = split_on(s, sep);
    if l.len() == 0 {
        assert(s + l =~= s);
        assert(q.update(q.len() - 1, q.last() + l) =~= q);
    } else {
        lemma_split_append_plain(s, l.drop_last(), sep);
        assert((s + l).drop_last() =~= s + l.drop_last());
        assert((s + l).last() == l.last());
        let p = split_on(s + l.drop_last(), sep);
        assert(p =~= q.update(q.len() - 1, q.last() + l.drop_last()));
        assert((q.last() + l.drop_last()).push(l.last()) =~= q.last() + l);
        assert(split_on(s + l, sep) =~= q.update(q.len() - 1, q.last() + l));
    }
}

proof fn lemma_split_nl_text(lines: Seq<Seq<char>>)
    requires
        forall|i: int| 0 <= i < lines.len() ==> has_no(#[trigger] lines[i], '\n'),
    ensures
        split_on(nl_text(lines), '\n') == lines.push(Seq::empty()),
    decreases lines.len(),
{
    if lines.len() == 0 {
        assert(split_on(Seq::<char>::empty(), '\n') =~= seq![Seq::<char>::empty()]);
        assert(lines.push(Seq::empty()) =~= seq![Seq::<char>::empty()]);
    } else {
        let p = lines.drop_last();
        let l = lines.last();
        lemma_split_nl_text(p);
        let x = nl_text(p) + l;
        assert(nl_text(lines) =~= x + seq!['\n']);
        assert((x + seq!['\n']).drop_last() =~= x);
        lemma_split_append_plain(nl_text(p), l, '\n');
        let q = p.push(Seq::<char>::empty());
        assert(q.update(q.len() - 1, q.last() + l) =~= lines);
        assert(split_on(x + seq!['\n'], '\n') =~= split_on(x, '\n').push(Seq::empty()));
    }
}

proof fn lemma_unfold_plain(lines: Seq<Seq<char>>)
    requires
        forall|i: int| 0 <= i < lines.len() ==> plain_line(#[trigger] lines[i]),
    ensures
        unfold_segments(lines) == lines,
    decreases lines.len(),
{
    if lines.len() > 0 {
        lemma_unfold_plain(lines.drop_last());
        assert(lines.drop_last().push(lines.last()) =~= lines);
    }
}

/// Logical lines written out with CRLF terminators unfold back into the
/// same logical lines.
pub proof fn lemma_unfold_crlf(lines: Seq<Seq<char>>)
    requires
        forall|i: int| 0 <= i < lines.len() ==> plain_line(#[trigger] lines[i]),
    ensures
        unfold_lines(crlf_text(lines)) == lines,
{
    lemma_normalize_crlf(lines);
    lemma_split_nl_text(lines);
    lemma_unfold_plain(lines);
    assert(lines.push(Seq::<char>::empty()).drop_last() =~= lines);
}

// ---------------------------------------------------------------------
// Parsing the lines of a written vCard
// ---------------------------------------------------------------------

proof fn lemma_parse_lines_add(a: Seq<Seq<char>>, b: Seq<Seq<char>>)
    ensures
        parse_lines(a + b) == parse_lines(a) + parse_lines(b),
    decreases b.len(),
{
    if b.len() == 0 {
        assert(a + b =~= a);
        assert(parse_lines(a) + parse_lines(b) =~= parse_lines(a));
    } else {
        lemma_parse_lines_add(a, b.drop_last());
        assert((a + b).drop_last() =~= a + b.drop_last());
        assert((a + b).last() == b.last());
        match parse_line(b.last()) {
            Some(p) => {
                assert((parse_lines(a) + parse_lines(b.drop_last())).push(p) =~= parse_lines(a)
                    + parse_lines(b.drop_last()).push(p));
            },
            None => {},
        }
    }
}

proof fn lemma_parse_lines_one(l: Seq<char>)
    ensures
        parse_lines(seq![l]) == (match parse_line(l) {
            Some(p) => seq![p],
            None => Seq::<PropertyView>::empty(),
        }),
{
    let e = Seq::<Seq<char>>::empty();
    assert(seq![l].drop_last() =~= e);
    assert(seq![l].last() == l);
    assert(parse_lines(e) =~= Seq::<PropertyView>::empty());
    match parse_line(l) {
        Some(p) => {
            assert(Seq::<PropertyView>::empty().push(p) =~= seq![p]);
        },
        None => {},
    }
}

proof fn lemma_trim_end_prefix(s: Seq<char>, m: int)
    requires
        0 <= m <= s.len(),
        forall|i: int| 0 <= i < m ==> !is_whitespace(#[trigger] s[i]),
    ensures
        m <= trim_end(s).len() <= s.len(),
        trim_end(s) == s.take(trim_end(s).len() as int),
    decreases s.len(),
{
    if s.len() > 0 && is_whitespace(s.last()) {
        assert(s.len() - 1 >= m);
        lemma_trim_end_prefix(s.drop_last(), m);
        let t = trim_end(s.drop_last());
        assert(s.drop_last().take(t.len() as int) =~= s.take(t.len() as int));
    } else {
        assert(s.take(s.len() as int) =~= s);
    }
}

/// A line whose first characters are not whitespace and do not start
/// "BEGIN" or "END" (in any case) is no marker line.
proof fn lemma_not_marker(line: Seq<char>)
    requires
        line.len() >= 2,
        !is_whitespace(line[0]),
        !is_whitespace(line[1]),
        ascii_lower(line[0]) != 'b',
        ascii_lower(line[0]) == 'e' ==> ascii_lower(line[1]) != 'n',
    ensures
        !is_marker_line(line),
{
    reveal_strlit("BEGIN:VCARD");
    reveal_strlit("END:VCARD");
    assert(trim_start(line) == line);
    lemma_trim_end_prefix(line, 2);
    let t = trim(line);
    assert(t == trim_end(line));
    assert(t == line.take(t.len() as int));
    assert(t[0] == line[0] && t[1] == line[1]);
    assert(ascii_lower('B') == 'b');
    assert(ascii_lower('E') == 'e');
    assert(ascii_lower('N') == 'n');
    if eq_ignore_ascii_case(t, "BEGIN:VCARD"@) {
        assert(ascii_lower(t[0]) == ascii_lower("BEGIN:VCARD"@[0]));
    }
    if eq_ignore_ascii_case(t, "END:VCARD"@) {
        assert(ascii_lower(t[0]) == ascii_lower("END:VCARD"@[0]));
        assert(ascii_lower(t[1]) == ascii_lower("END:VCARD"@[1]));
    }
}

/// A marker line written exactly: no surrounding whitespace.
proof fn lemma_marker_literal(line: Seq<char>)
    requires
        line == "BEGIN:VCARD"@ || line == "END:VCARD"@,
    ensures
        parse_line(line) is None,
{
    reveal_strlit("BEGIN:VCARD");
    reveal_strlit("END:VCARD");
    assert(trim_start(line) == line);
    assert(trim_end(line) == line);
}

proof fn lemma_colon_at(line: Seq<char>, i: int, k: int)
    requires
        0 <= i <= k < line.len(),
        line[k] == ':',
        forall|j: int| i <= j < k ==> line[j] != ':' && line[j] != '"',
    ensures
        colon_from(line, i, false) == Some(k),
    decreases k - i,
{
    if i < k {
        lemma_colon_at(line, i + 1, k);
    }
}

/// The "name+params" part of a line written by this library.
pub open spec fn header_ok(h: Seq<char>) -> bool {
    &&& h.len() >= 1
    &&& forall|i: int| 0 <= i < h.len() ==> h[i] != ':' && h[i] != '"' && !is_whitespace(#[trigger] h[i])
    &&& ascii_lower(h[0]) != 'b'
    &&& ascii_lower(h[0]) == 'e' ==> (h.len() >= 2 && ascii_lower(h[1]) != 'n')
}

proof fn lemma_field_line(h: Seq<char>, raw: Seq<char>)
    requires
        header_ok(h),
    ensures
        parse_line(h + seq![':'] + raw) == Some(
            PropertyView { name: property_name(h), value: unescape(raw) },
        ),
{
    let line = h + seq![':'] + raw;
    assert(line[0] == h[0]);
    assert(!is_whitespace(':'));
    if h.len() >= 2 {
        assert(line[1] == h[1]);
    } else {
        assert(line[1] == ':');
    }
    lemma_not_marker(line);
    lemma_colon_at(line, 0, h.len() as int);
    assert(line.take(h.len() as int) =~= h);
    assert(line.skip(h.len() + 1 as int) =~= raw);
}

proof fn lemma_take_until_split(a: Seq<char>, b: Seq<char>, c: char)
    requires
        has_no(a, c),
        b.len() == 0 || b[0] == c,
    ensures
        take_until(a + b, c) == a,
    decreases a.len(),
{
    if a.len() == 0 {
        assert(a + b =~= b);
        assert(take_until(b, c) =~= a);
    } else {
        lemma_take_until_split(a.drop_first(), b, c);
        assert((a + b).drop_first() =~= a.drop_first() + b);
        assert(seq![a[0]] + a.drop_first() =~= a);
    }
}

proof fn lemma_after_last_plain(a: Seq<char>, c: char)
    requires
        has_no(a, c),
    ensures
        after_last(a, c) == a,
    decreases a.len(),
{
    if a.len() > 0 {
        lemma_after_last_plain(a.drop_last(), c);
        assert(a.drop_last().push(a.last()) =~= a);
    }
}

/// The property name of a header `n + tail`, where `tail` is empty or
/// starts the parameters with ';'.
proof fn lemma_name_of(h: Seq<char>, n: Seq<char>, tail: Seq<char>)
    requires
        h == n + tail,
        has_no(n, ';'),
        has_no(n, '.'),
        forall|i: int| 0 <= i < n.len() ==> !('a' <= #[trigger] n[i] && n[i] <= 'z'),
        tail.len() == 0 || tail[0] == ';',
    ensures
        property_name(h) == n,
{
    lemma_take_until_split(n, tail, ';');
    lemma_after_last_plain(n, '.');
    assert(upper_seq(n) =~= n);
}

proof fn lemma_escape_no_newline(v: Seq<char>)
    ensures
        has_no(escape(v), '\n'),
    decreases v.len(),
{
    if v.len() > 0 {
        lemma_escape_no_newline(v.drop_first());
        let e = escape_char(v[0]);
        assert(has_no(e, '\n'));
        assert forall|i: int| 0 <= i < escape(v).len() implies escape(v)[i] != '\n' by {
            if i >= e.len() {
                assert(escape(v)[i] == escape(v.drop_first())[i - e.len()]);
            }
        }
    }
}

proof fn lemma_field_line_plain(h: Seq<char>, raw: Seq<char>)
    requires
        header_ok(h),
        has_no(raw, '\n'),
    ensures
        plain_line(h + seq![':'] + raw),
{
    let line = h + seq![':'] + raw;
    assert(line[0] == h[0]);
    assert forall|i: int| 0 <= i < line.len() implies line[i] != '\n' by {
        if i < h.len() {
            assert(line[i] == h[i]);
            assert(!is_whitespace(h[i]));
        } else if i > h.len() {
            assert(line[i] == raw[i - h.len() - 1]);
        }
    }
}

// ---------------------------------------------------------------------
// Looking up the properties of a written vCard
// ---------------------------------------------------------------------

/// Properties that all carry the name `n`, with the given values.
pub open spec fn with_name(n: Seq<char>, vals: Seq<Seq<char>>) -> Seq<PropertyView> {
    vals.map_values(|v: Seq<char>| PropertyView { name: n, value: v })
}

proof fn lemma_named_add(a: Seq<PropertyView>, b: Seq<PropertyView>, n: Seq<char>)
    ensures
        named(a + b, n) == named(a, n) + named(b, n),
{
    Seq::filter_distributes_over_add(a, b, |p: PropertyView| p.name == n);
}

proof fn lemma_named_single(p: PropertyView, n: Seq<char>)
    ensures
        named(seq![p], n) == (if p.name == n {
            seq![p]
        } else {
            Seq::<PropertyView>::empty()
        }),
{
    Seq::<PropertyView>::empty().lemma_filter_prepend(p, |q: PropertyView| q.name == n);
    assert(seq![p] + Seq::<PropertyView>::empty() =~= seq![p]);
    reveal(Seq::filter);
    assert(Seq::<PropertyView>::empty().filter(|q: PropertyView| q.name == n)
        =~= Seq::<PropertyView>::empty());
}

proof fn lemma_named_with_name(m: Seq<char>, vals: Seq<Seq<char>>, n: Seq<char>)
    ensures
        named(with_name(m, vals), n) == (if m == n {
            with_name(m, vals)
        } else {
            Seq::<PropertyView>::empty()
        }),
    decreases vals.len(),
{
    reveal(Seq::filter);
    if vals.len() > 0 {
        lemma_named_with_name(m, vals.drop_last(), n);
        assert(with_name(m, vals).drop_last() =~= with_name(m, vals.drop_last()));
        assert(with_name(m, vals.drop_last()).push(PropertyView { name: m, value: vals.last() })
            =~= with_name(m, vals));
    } else {
        assert(with_name(m, vals) =~= Seq::<PropertyView>::empty());
    }
}

proof fn lemma_values_with_name(n: Seq<char>, vals: Seq<Seq<char>>)
    ensures
        values(with_name(n, vals)) == vals,
{
    assert(values(with_name(n, vals)) =~= vals);
}

// ---------------------------------------------------------------------
// Headers of the lines this library writes
// ---------------------------------------------------------------------

/// All lines unfold as themselves.
pub open spec fn all_plain(lines: Seq<Seq<char>>) -> bool {
    forall|i: int| 0 <= i < lines.len() ==> plain_line(#[trigger] lines[i])
}

proof fn lemma_all_plain_add(a: Seq<Seq<char>>, b: Seq<Seq<char>>)
    requires
        all_plain(a),
        all_plain(b),
    ensures
        all_plain(a + b),
{
    assert forall|i: int| 0 <= i < (a + b).len() implies plain_line(#[trigger] (a + b)[i]) by {
        if i < a.len() {
            assert((a + b)[i] == a[i]);
        } else {
            assert((a + b)[i] == b[i - a.len()]);
        }
    }
}

proof fn lemma_prefixed(h: Seq<char>, n: Seq<char>, vals: Seq<Seq<char>>)
    requires
        header_ok(h),
        property_name(h) == n,
    ensures
        parse_lines(prefixed_lines(h + seq![':'], vals)) == with_name(n, vals),
        all_plain(prefixed_lines(h + seq![':'], vals)),
    decreases vals.len(),
{
    let p = h + seq![':'];
    let ls = prefixed_lines(p, vals);
    if vals.len() == 0 {
        assert(ls =~= Seq::<Seq<char>>::empty());
        assert(with_name(n, vals) =~= Seq::<PropertyView>::empty());
    } else {
        lemma_prefixed(h, n, vals.drop_last());
        assert(ls.drop_last() =~= prefixed_lines(p, vals.drop_last()));
        let v = vals.last();
        assert(ls.last() == p + escape(v));
        assert(p + escape(v) =~= h + seq![':'] + escape(v));
        lemma_field_line(h, escape(v));
        law_unescape_escape(v);
        assert(with_name(n, vals.drop_last()).push(PropertyView { name: n, value: v }) =~= with_name(
            n,
            vals,
        ));
        lemma_escape_no_newline(v);
        lemma_field_line_plain(h, escape(v));
        assert forall|i: int| 0 <= i < ls.len() implies plain_line(#[trigger] ls[i]) by {
            if i < ls.len() - 1 {
                assert(ls[i] == ls.drop_last()[i]);
            }
        }
    }
}

proof fn lemma_optional(h: Seq<char>, n: Seq<char>, o: Option<Seq<char>>)
    requires
        header_ok(h),
        property_name(h) == n,
    ensures
        parse_lines(optional_line(h + seq![':'], o)) == (if unwrap_or_empty(o).len() > 0 {
            seq![PropertyView { name: n, value: unwrap_or_empty(o) }]
        } else {
            Seq::<PropertyView>::empty()
        }),
        all_plain(optional_line(h + seq![':'], o)),
{
    let v = unwrap_or_empty(o);
    if v.len() > 0 {
        let line = h + seq![':'] + escape(v);
        assert(optional_line(h + seq![':'], o) =~= seq![line]);
        lemma_parse_lines_one(line);
        lemma_field_line(h, escape(v));
        law_unescape_escape(v);
        lemma_escape_no_newline(v);
        lemma_field_line_plain(h, escape(v));
    } else {
        assert(parse_lines(Seq::<Seq<char>>::empty()) =~= Seq::<PropertyView>::empty());
    }
}

// ---------------------------------------------------------------------
// Reading back a written vCard
// ---------------------------------------------------------------------

proof fn lemma_has_no_add(a: Seq<char>, b: Seq<char>, c: char)
    requires
        has_no(a, c),
        has_no(b, c),
    ensures
        has_no(a + b, c),
{
    assert forall|i: int| 0 <= i < (a + b).len() implies (a + b)[i] != c by {
        if i < a.len() {
            assert((a + b)[i] == a[i]);
        } else {
            assert((a + b)[i] == b[i - a.len()]);
        }
    }
}

proof fn lemma_literal_headers()
    ensures
        header_ok("VERSION"@),
        header_ok("UID"@),
        header_ok("FN"@),
        header_ok("N"@),
        header_ok("EMAIL;TYPE=INTERNET"@),
        header_ok("TEL;TYPE=CELL"@),
        header_ok("ORG"@),
        header_ok("NOTE"@),
        property_name("VERSION"@) == "VERSION"@,
        property_name("UID"@) == "UID"@,
        property_name("FN"@) == "FN"@,
        property_name("N"@) == "N"@,
        property_name("EMAIL;TYPE=INTERNET"@) == "EMAIL"@,
        property_name("TEL;TYPE=CELL"@) == "TEL"@,
        property_name("ORG"@) == "ORG"@,
        property_name("NOTE"@) == "NOTE"@,
        "VERSION:3.0"@ == "VERSION"@ + seq![':'] + "3.0"@,
        "UID:"@ == "UID"@ + seq![':'],
        "FN:"@ == "FN"@ + seq![':'],
        "N:"@ == "N"@ + seq![':'],
        "EMAIL;TYPE=INTERNET:"@ == "EMAIL;TYPE=INTERNET"@ + seq![':'],
        "TEL;TYPE=CELL:"@ == "TEL;TYPE=CELL"@ + seq![':'],
        "ORG:"@ == "ORG"@ + seq![':'],
        "NOTE:"@ == "NOTE"@ + seq![':'],
        has_no("3.0"@, '\n'),
        ";"@ == seq![';'],
        ";;;"@ == seq![';', ';', ';'],
        plain_line("BEGIN:VCARD"@),
        plain_line("END:VCARD"@),
{
    reveal_strlit("VERSION");
    reveal_strlit("UID");
    reveal_strlit("FN");
    reveal_strlit("N");
    reveal_strlit("EMAIL;TYPE=INTERNET");
    reveal_strlit("EMAIL");
    reveal_strlit("TEL;TYPE=CELL");
    reveal_strlit("TEL");
    reveal_strlit("ORG");
    reveal_strlit("NOTE");
    reveal_strlit("VERSION:3.0");
    reveal_strlit("3.0");
    reveal_strlit("UID:");
    reveal_strlit("FN:");
    reveal_strlit("N:");
    reveal_strlit("EMAIL;TYPE=INTERNET:");
    reveal_strlit("TEL;TYPE=CELL:");
    reveal_strlit("ORG:");
    reveal_strlit("NOTE:");
    reveal_strlit(";");
    reveal_strlit(";;;");
    reveal_strlit("BEGIN:VCARD");
    reveal_strlit("END:VCARD");
    let e = Seq::<char>::empty();
    assert(ascii_lower('E') == 'e' && ascii_lower('M') == 'm' && ascii_lower('V') == 'v');
    assert(ascii_lower('U') == 'u' && ascii_lower('F') == 'f' && ascii_lower('N') == 'n');
    assert(ascii_lower('T') == 't' && ascii_lower('O') == 'o');
    assert(!is_whitespace('Y') && !is_whitespace('=') && !is_whitespace(';'));
    assert("VERSION"@ + e =~= "VERSION"@);
    lemma_name_of("VERSION"@, "VERSION"@, e);
    assert("UID"@ + e =~= "UID"@);
    lemma_name_of("UID"@, "UID"@, e);
    assert("FN"@ + e =~= "FN"@);
    lemma_name_of("FN"@, "FN"@, e);
    assert("N"@ + e =~= "N"@);
    lemma_name_of("N"@, "N"@, e);
    assert("ORG"@ + e =~= "ORG"@);
    lemma_name_of("ORG"@, "ORG"@, e);
    assert("NOTE"@ + e =~= "NOTE"@);
    lemma_name_of("NOTE"@, "NOTE"@, e);
    assert("EMAIL;TYPE=INTERNET"@ =~= "EMAIL"@ + seq![';', 'T', 'Y', 'P', 'E', '=', 'I', 'N', 'T', 'E', 'R', 'N', 'E', 'T']);
    lemma_name_of("EMAIL;TYPE=INTERNET"@, "EMAIL"@, seq![';', 'T', 'Y', 'P', 'E', '=', 'I', 'N', 'T', 'E', 'R', 'N', 'E', 'T']);
    assert("TEL;TYPE=CELL"@ =~= "TEL"@ + seq![';', 'T', 'Y', 'P', 'E', '=', 'C', 'E', 'L', 'L']);
    lemma_name_of("TEL;TYPE=CELL"@, "TEL"@, seq![';', 'T', 'Y', 'P', 'E', '=', 'C', 'E', 'L', 'L']);
    assert("VERSION:3.0"@ =~= "VERSION"@ + seq![':'] + "3.0"@);
    assert("UID:"@ =~= "UID"@ + seq![':']);
    assert("FN:"@ =~= "FN"@ + seq![':']);
    assert("N:"@ =~= "N"@ + seq![':']);
    assert("EMAIL;TYPE=INTERNET:"@ =~= "EMAIL;TYPE=INTERNET"@ + seq![':']);
    assert("TEL;TYPE=CELL:"@ =~= "TEL;TYPE=CELL"@ + seq![':']);
    assert("ORG:"@ =~= "ORG"@ + seq![':']);
    assert("NOTE:"@ =~= "NOTE"@ + seq![':']);
    assert(";"@ =~= seq![';']);
    assert(";;;"@ =~= seq![';', ';', ';']);
}

/// The property an optional field reads back as: none when it is absent
/// or empty.
pub open spec fn optional_property(n: Seq<char>, o: Option<Seq<char>>) -> Seq<PropertyView> {
    if unwrap_or_empty(o).len() > 0 {
        seq![PropertyView { name: n, value: unwrap_or_empty(o) }]
    } else {
        Seq::<PropertyView>::empty()
    }
}

/// The N property read back: present when either name part is non-empty.
pub open spec fn name_property(first: Option<Seq<char>>, last: Option<Seq<char>>) -> Seq<PropertyView> {
    let l = unwrap_or_empty(last);
    let f = unwrap_or_empty(first);
    if l.len() > 0 || f.len() > 0 {
        seq![PropertyView { name: "N"@, value: l + seq![';'] + f + seq![';', ';', ';'] }]
    } else {
        Seq::<PropertyView>::empty()
    }
}

/// The properties read back from the vCard written for `input`.
pub open spec fn written_properties(uid: Seq<char>, input: ContactInputView) -> Seq<PropertyView> {
    seq![
        PropertyView { name: "VERSION"@, value: unescape("3.0"@) },
        PropertyView { name: "UID"@, value: uid },
        PropertyView { name: "FN"@, value: input.full_name },
    ] + name_property(input.first_name, input.last_name) + with_name("EMAIL"@, input.emails)
        + with_name("TEL"@, input.phones) + optional_property("ORG"@, input.org)
        + optional_property("NOTE"@, input.note)
}

proof fn lemma_name_line(first: Option<Seq<char>>, last: Option<Seq<char>>)
    ensures
        parse_lines(name_line(first, last)) == name_property(first, last),
        all_plain(name_line(first, last)),
{
    lemma_literal_headers();
    let l = unwrap_or_empty(last);
    let f = unwrap_or_empty(first);
    if l.len() > 0 || f.len() > 0 {
        let raw = escape(l) + ";"@ + escape(f) + ";;;"@;
        let line = "N:"@ + escape(l) + ";"@ + escape(f) + ";;;"@;
        assert(line =~= "N"@ + seq![':'] + raw);
        assert(name_line(first, last) =~= seq![line]);
        lemma_parse_lines_one(line);
        lemma_field_line("N"@, raw);
        // unescape(raw) == l ; f ;;;
        let x = seq![';'] + escape(f) + seq![';', ';', ';'];
        assert(raw =~= escape(l) + x);
        lemma_unescape_escape_prefix(l, x);
        assert(x[0] == ';');
        assert(x.drop_first() =~= escape(f) + seq![';', ';', ';']);
        lemma_unescape_escape_prefix(f, seq![';', ';', ';']);
        lemma_unescape_plain(seq![';', ';', ';']);
        assert(unescape(x) =~= seq![';'] + unescape(x.drop_first()));
        assert(unescape(raw) =~= l + seq![';'] + f + seq![';', ';', ';']);
        // the line is plain
        lemma_escape_no_newline(l);
        lemma_escape_no_newline(f);
        assert(has_no(seq![';'], '\n'));
        assert(has_no(seq![';', ';', ';'], '\n'));
        lemma_has_no_add(escape(l), seq![';'], '\n');
        lemma_has_no_add(escape(l) + seq![';'], escape(f), '\n');
        lemma_has_no_add(escape(l) + seq![';'] + escape(f), seq![';', ';', ';'], '\n');
        lemma_field_line_plain("N"@, raw);
    } else {
        assert(parse_lines(Seq::<Seq<char>>::empty()) =~= Seq::<PropertyView>::empty());
    }
}

proof fn lemma_written_lines(uid: Seq<char>, input: ContactInputView)
    ensures
        all_plain(vcard_lines(uid, input)),
        parse_lines(vcard_lines(uid, input)) == written_properties(uid, input),
{
    lemma_literal_headers();
    let b = "BEGIN:VCARD"@;
    let v = "VERSION:3.0"@;
    let u = "UID:"@ + escape(uid);
    let f = "FN:"@ + escape(input.full_name);
    let e = "END:VCARD"@;
    let s0 = seq![b, v, u, f];
    let s1 = name_line(input.first_name, input.last_name);
    let s2 = prefixed_lines("EMAIL;TYPE=INTERNET:"@, input.emails);
    let s3 = prefixed_lines("TEL;TYPE=CELL:"@, input.phones);
    let s4 = optional_line("ORG:"@, input.org);
    let s5 = optional_line("NOTE:"@, input.note);
    let s6 = seq![e];
    assert(vcard_lines(uid, input) == s0 + s1 + s2 + s3 + s4 + s5 + s6);

    // the fixed head
    assert(u =~= "UID"@ + seq![':'] + escape(uid));
    assert(f =~= "FN"@ + seq![':'] + escape(input.full_name));
    lemma_field_line("VERSION"@, "3.0"@);
    lemma_field_line("UID"@, escape(uid));
    lemma_field_line("FN"@, escape(input.full_name));
    law_unescape_escape(uid);
    law_unescape_escape(input.full_name);
    lemma_marker_literal(b);
    lemma_marker_literal(e);
    lemma_field_line_plain("VERSION"@, "3.0"@);
    lemma_escape_no_newline(uid);
    lemma_escape_no_newline(input.full_name);
    lemma_field_line_plain("UID"@, escape(uid));
    lemma_field_line_plain("FN"@, escape(input.full_name));
    assert(s0 =~= seq![b] + seq![v] + seq![u] + seq![f]);
    lemma_parse_lines_one(b);
    lemma_parse_lines_one(v);
    lemma_parse_lines_one(u);
    lemma_parse_lines_one(f);
    lemma_parse_lines_one(e);
    lemma_parse_lines_add(seq![b], seq![v]);
    lemma_parse_lines_add(seq![b] + seq![v], seq![u]);
    lemma_parse_lines_add(seq![b] + seq![v] + seq![u], seq![f]);
    let p0 = seq![
        PropertyView { name: "VERSION"@, value: unescape("3.0"@) },
        PropertyView { name: "UID"@, value: uid },
        PropertyView { name: "FN"@, value: input.full_name },
    ];
    assert(parse_lines(s0) =~= p0);
    assert(all_plain(s0));
    assert(all_plain(s6));

    // the rest
    lemma_name_line(input.first_name, input.last_name);
    lemma_prefixed("EMAIL;TYPE=INTERNET"@, "EMAIL"@, input.emails);
    lemma_prefixed("TEL;TYPE=CELL"@, "TEL"@, input.phones);
    lemma_optional("ORG"@, "ORG"@, input.org);
    lemma_optional("NOTE"@, "NOTE"@, input.note);

    lemma_parse_lines_add(s0, s1);
    lemma_parse_lines_add(s0 + s1, s2);
    lemma_parse_lines_add(s0 + s1 + s2, s3);
    lemma_parse_lines_add(s0 + s1 + s2 + s3, s4);
    lemma_parse_lines_add(s0 + s1 + s2 + s3 + s4, s5);
    lemma_parse_lines_add(s0 + s1 + s2 + s3 + s4 + s5, s6);
    assert(parse_lines(s6) =~= Seq::<PropertyView>::empty());
    let props = p0 + name_property(input.first_name, input.last_name) + with_name(
        "EMAIL"@,
        input.emails,
    ) + with_name("TEL"@, input.phones) + optional_property("ORG"@, input.org)
        + optional_property("NOTE"@, input.note);
    assert(props + Seq::<PropertyView>::empty() =~= props);
    assert(props == written_properties(uid, input));

    lemma_all_plain_add(s0, s1);
    lemma_all_plain_add(s0 + s1, s2);
    lemma_all_plain_add(s0 + s1 + s2, s3);
    lemma_all_plain_add(s0 + s1 + s2 + s3, s4);
    lemma_all_plain_add(s0 + s1 + s2 + s3 + s4, s5);
    lemma_all_plain_add(s0 + s1 + s2 + s3 + s4 + s5, s6);
}

proof fn lemma_named_empty(n: Seq<char>)
    ensures
        named(Seq::<PropertyView>::empty(), n) == Seq::<PropertyView>::empty(),
{
    reveal(Seq::filter);
}

proof fn lemma_named_written(uid: Seq<char>, input: ContactInputView, n: Seq<char>)
    ensures
        named(written_properties(uid, input), n) == named(
            seq![PropertyView { name: "VERSION"@, value: unescape("3.0"@) }],
            n,
        ) + named(seq![PropertyView { name: "UID"@, value: uid }], n) + named(
            seq![PropertyView { name: "FN"@, value: input.full_name }],
            n,
        ) + named(name_property(input.first_name, input.last_name), n) + named(
            with_name("EMAIL"@, input.emails),
            n,
        ) + named(with_name("TEL"@, input.phones), n) + named(optional_property("ORG"@, input.org), n)
            + named(optional_property("NOTE"@, input.note), n),
{
    let a = seq![PropertyView { name: "VERSION"@, value: unescape("3.0"@) }];
    let b = seq![PropertyView { name: "UID"@, value: uid }];
    let c = seq![PropertyView { name: "FN"@, value: input.full_name }];
    let p1 = name_property(input.first_name, input.last_name);
    let p2 = with_name("EMAIL"@, input.emails);
    let p3 = with_name("TEL"@, input.phones);
    let p4 = optional_property("ORG"@, input.org);
    let p5 = optional_property("NOTE"@, input.note);
    assert(written_properties(uid, input) =~= a + b + c + p1 + p2 + p3 + p4 + p5);
    lemma_named_add(a, b, n);
    lemma_named_add(a + b, c, n);
    lemma_named_add(a + b + c, p1, n);
    lemma_named_add(a + b + c + p1, p2, n);
    lemma_named_add(a + b + c + p1 + p2, p3, n);
    lemma_named_add(a + b + c + p1 + p2 + p3, p4, n);
    lemma_named_add(a + b + c + p1 + p2 + p3 + p4, p5, n);
}

proof fn lemma_named_optional(m: Seq<char>, o: Option<Seq<char>>, n: Seq<char>)
    ensures
        named(optional_property(m, o), n) == (if m == n {
            optional_property(m, o)
        } else {
            Seq::<PropertyView>::empty()
        }),
{
    lemma_named_empty(n);
    if unwrap_or_empty(o).len() > 0 {
        lemma_named_single(PropertyView { name: m, value: unwrap_or_empty(o) }, n);
    }
}

proof fn lemma_named_name_property(
    first: Option<Seq<char>>,
    last: Option<Seq<char>>,
    n: Seq<char>,
)
    ensures
        named(name_property(first, last), n) == (if n == "N"@ {
            name_property(first, last)
        } else {
            Seq::<PropertyView>::empty()
        }),
{
    lemma_named_empty(n);
    let l = unwrap_or_empty(last);
    let f = unwrap_or_empty(first);
    if l.len() > 0 || f.len() > 0 {
        lemma_named_single(
            PropertyView { name: "N"@, value: l + seq![';'] + f + seq![';', ';', ';'] },
            n,
        );
    }
}

proof fn lemma_names_distinct()
    ensures
        "VERSION"@ != "FN"@,
        "VERSION"@ != "N"@,
        "VERSION"@ != "EMAIL"@,
        "VERSION"@ != "TEL"@,
        "VERSION"@ != "ORG"@,
        "VERSION"@ != "NOTE"@,
        "UID"@ != "FN"@,
        "UID"@ != "N"@,
        "UID"@ != "EMAIL"@,
        "UID"@ != "TEL"@,
        "UID"@ != "ORG"@,
        "UID"@ != "NOTE"@,
        "FN"@ != "N"@,
        "FN"@ != "EMAIL"@,
        "FN"@ != "TEL"@,
        "FN"@ != "ORG"@,
        "FN"@ != "NOTE"@,
        "N"@ != "EMAIL"@,
        "N"@ != "TEL"@,
        "N"@ != "ORG"@,
        "N"@ != "NOTE"@,
        "EMAIL"@ != "TEL"@,
        "EMAIL"@ != "ORG"@,
        "EMAIL"@ != "NOTE"@,
        "TEL"@ != "ORG"@,
        "TEL"@ != "NOTE"@,
        "ORG"@ != "NOTE"@,
{
    reveal_strlit("VERSION");
    reveal_strlit("UID");
    reveal_strlit("FN");
    reveal_strlit("N");
    reveal_strlit("EMAIL");
    reveal_strlit("TEL");
    reveal_strlit("ORG");
    reveal_strlit("NOTE");
    assert("VERSION"@.len() == 7 && "UID"@.len() == 3 && "FN"@.len() == 2 && "N"@.len() == 1);
    assert("EMAIL"@.len() == 5 && "TEL"@.len() == 3 && "ORG"@.len() == 3 && "NOTE"@.len() == 4);
    assert("UID"@[0] != "TEL"@[0]);
    assert("UID"@[0] != "ORG"@[0]);
    assert("TEL"@[0] != "ORG"@[0]);
}

/// The parts of the written properties that carry the name `n`, for a
/// name that is not one of the fixed head's.
proof fn lemma_named_tail(uid: Seq<char>, input: ContactInputView, n: Seq<char>)
    requires
        n != "VERSION"@,
        n != "UID"@,
        n != "FN"@,
    ensures
        named(written_properties(uid, input), n) == named(
            name_property(input.first_name, input.last_name),
            n,
        ) + named(with_name("EMAIL"@, input.emails), n) + named(with_name("TEL"@, input.phones), n)
            + named(optional_property("ORG"@, input.org), n) + named(
            optional_property("NOTE"@, input.note),
            n,
        ),
{
    lemma_named_written(uid, input, n);
    lemma_named_single(PropertyView { name: "VERSION"@, value: unescape("3.0"@) }, n);
    lemma_named_single(PropertyView { name: "UID"@, value: uid }, n);
    lemma_named_single(PropertyView { name: "FN"@, value: input.full_name }, n);
    let e = Seq::<PropertyView>::empty();
    let rest = named(name_property(input.first_name, input.last_name), n) + named(
        with_name("EMAIL"@, input.emails),
        n,
    ) + named(with_name("TEL"@, input.phones), n) + named(optional_property("ORG"@, input.org), n)
        + named(optional_property("NOTE"@, input.note), n);
    assert(e + e + e + named(name_property(input.first_name, input.last_name), n) + named(
        with_name("EMAIL"@, input.emails),
        n,
    ) + named(with_name("TEL"@, input.phones), n) + named(optional_property("ORG"@, input.org), n)
        + named(optional_property("NOTE"@, input.note), n) =~= rest);
}

proof fn lemma_named_fn(uid: Seq<char>, input: ContactInputView)
    ensures
        named(written_properties(uid, input), "FN"@) == seq![
            PropertyView { name: "FN"@, value: input.full_name },
        ],
{
    lemma_names_distinct();
    let n = "FN"@;
    let pf = PropertyView { name: "FN"@, value: input.full_name };
    lemma_named_written(uid, input, n);
    lemma_named_single(PropertyView { name: "VERSION"@, value: unescape("3.0"@) }, n);
    lemma_named_single(PropertyView { name: "UID"@, value: uid }, n);
    lemma_named_single(pf, n);
    lemma_named_name_property(input.first_name, input.last_name, n);
    lemma_named_with_name("EMAIL"@, input.emails, n);
    lemma_named_with_name("TEL"@, input.phones, n);
    lemma_named_optional("ORG"@, input.org, n);
    lemma_named_optional("NOTE"@, input.note, n);
    let e = Seq::<PropertyView>::empty();
    assert(e + e + seq![pf] + e + e + e + e + e =~= seq![pf]);
}

proof fn lemma_named_n(uid: Seq<char>, input: ContactInputView)
    ensures
        named(written_properties(uid, input), "N"@) == name_property(input.first_name, input.last_name),
{
    lemma_names_distinct();
    let n = "N"@;
    lemma_named_tail(uid, input, n);
    lemma_named_name_property(input.first_name, input.last_name, n);
    lemma_named_with_name("EMAIL"@, input.emails, n);
    lemma_named_with_name("TEL"@, input.phones, n);
    lemma_named_optional("ORG"@, input.org, n);
    lemma_named_optional("NOTE"@, input.note, n);
    let e = Seq::<PropertyView>::empty();
    let p = name_property(input.first_name, input.last_name);
    assert(p + e + e + e + e =~= p);
}

proof fn lemma_named_lists(uid: Seq<char>, input: ContactInputView)
    ensures
        named(written_properties(uid, input), "EMAIL"@) == with_name("EMAIL"@, input.emails),
        named(written_properties(uid, input), "TEL"@) == with_name("TEL"@, input.phones),
{
    lemma_names_distinct();
    let e = Seq::<PropertyView>::empty();
    let n = "EMAIL"@;
    lemma_named_tail(uid, input, n);
    lemma_named_name_property(input.first_name, input.last_name, n);
    lemma_named_with_name("EMAIL"@, input.emails, n);
    lemma_named_with_name("TEL"@, input.phones, n);
    lemma_named_optional("ORG"@, input.org, n);
    lemma_named_optional("NOTE"@, input.note, n);
    let p = with_name("EMAIL"@, input.emails);
    assert(e + p + e + e + e =~= p);
    let n = "TEL"@;
    lemma_named_tail(uid, input, n);
    lemma_named_name_property(input.first_name, input.last_name, n);
    lemma_named_with_name("EMAIL"@, input.emails, n);
    lemma_named_with_name("TEL"@, input.phones, n);
    lemma_named_optional("ORG"@, input.org, n);
    lemma_named_optional("NOTE"@, input.note, n);
    let p = with_name("TEL"@, input.phones);
    assert(e + e + p + e + e =~= p);
}

proof fn lemma_named_optionals(uid: Seq<char>, input: ContactInputView)
    ensures
        named(written_properties(uid, input), "ORG"@) == optional_property("ORG"@, input.org),
        named(written_properties(uid, input), "NOTE"@) == optional_property("NOTE"@, input.note),
{
    lemma_names_distinct();
    let e = Seq::<PropertyView>::empty();
    let n = "ORG"@;
    lemma_named_tail(uid, input, n);
    lemma_named_name_property(input.first_name, input.last_name, n);
    lemma_named_with_name("EMAIL"@, input.emails, n);
    lemma_named_with_name("TEL"@, input.phones, n);
    lemma_named_optional("ORG"@, input.org, n);
    lemma_named_optional("NOTE"@, input.note, n);
    let p = optional_property("ORG"@, input.org);
    assert(e + e + e + p + e =~= p);
    let n = "NOTE"@;
    lemma_named_tail(uid, input, n);
    lemma_named_name_property(input.first_name, input.last_name, n);
    lemma_named_with_name("EMAIL"@, input.emails, n);
    lemma_named_with_name("TEL"@, input.phones, n);
    lemma_named_optional("ORG"@, input.org, n);
    lemma_named_optional("NOTE"@, input.note, n);
    let p = optional_property("NOTE"@, input.note);
    assert(e + e + e + e + p =~= p);
}

/// What reading back the vCard written for `input` under `uid` gives:
/// the fields as written, with empty optional fields absent.
pub open spec fn written_contact(uid: Seq<char>, input: ContactInputView) -> ContactView {
    ContactView {
        uid: uid,
        full_name: input.full_name,
        first_name: non_empty(unwrap_or_empty(input.first_name)),
        last_name: non_empty(unwrap_or_empty(input.last_name)),
        emails: input.emails,
        phones: input.phones,
        org: non_empty(unwrap_or_empty(input.org)),
        note: non_empty(unwrap_or_empty(input.note)),
    }
}

proof fn lemma_read_back_names(uid: Seq<char>, input: ContactInputView)
    requires
        has_no(unwrap_or_empty(input.first_name), ';'),
        has_no(unwrap_or_empty(input.last_name), ';'),
    ensures
        contact_spec(uid, written_properties(uid, input)).first_name == non_empty(
            unwrap_or_empty(input.first_name),
        ),
        contact_spec(uid, written_properties(uid, input)).last_name == non_empty(
            unwrap_or_empty(input.last_name),
        ),
{
    let props = written_properties(uid, input);
    lemma_named_n(uid, input);
    law_lookup_is_first_named(props, "N"@);
    let l = unwrap_or_empty(input.last_name);
    let f = unwrap_or_empty(input.first_name);
    if l.len() > 0 || f.len() > 0 {
        let value = l + seq![';'] + f + seq![';', ';', ';'];
        let rest = seq![';'] + f + seq![';', ';', ';'];
        assert(value =~= l + rest);
        lemma_take_until_split(l, rest, ';');
        assert(value.skip(l.len() + 1 as int) =~= f + seq![';', ';', ';']);
        lemma_take_until_split(f, seq![';', ';', ';'], ';');
    }
}

proof fn lemma_read_back_others(uid: Seq<char>, input: ContactInputView)
    ensures
        contact_spec(uid, written_properties(uid, input)).full_name == input.full_name,
        contact_spec(uid, written_properties(uid, input)).emails == input.emails,
        contact_spec(uid, written_properties(uid, input)).phones == input.phones,
        contact_spec(uid, written_properties(uid, input)).org == non_empty(unwrap_or_empty(input.org)),
        contact_spec(uid, written_properties(uid, input)).note == non_empty(
            unwrap_or_empty(input.note),
        ),
{
    let props = written_properties(uid, input);
    lemma_named_fn(uid, input);
    law_lookup_is_first_named(props, "FN"@);
    lemma_named_lists(uid, input);
    lemma_values_with_name("EMAIL"@, input.emails);
    lemma_values_with_name("TEL"@, input.phones);
    lemma_named_optionals(uid, input);
    law_lookup_is_first_named(props, "ORG"@);
    law_lookup_is_first_named(props, "NOTE"@);
}

/// Reading back the vCard written for a contact gives the contact as it
/// was written: the uid, full name, emails and phones as given, and each
/// name part, organization and note as given when non-empty (absent when
/// empty). Name parts that hold a ';' are left out: N uses ';' to separate
/// them.
pub proof fn law_read_back_written_contact(uid: Seq<char>, input: ContactInputView)
    requires
        has_no(unwrap_or_empty(input.first_name), ';'),
        has_no(unwrap_or_empty(input.last_name), ';'),
    ensures
        contact_spec(uid, parse_spec(vcard_text(uid, input))) == written_contact(uid, input),
{
    lemma_written_lines(uid, input);
    lemma_unfold_crlf(vcard_lines(uid, input));
    assert(parse_spec(vcard_text(uid, input)) == written_properties(uid, input));
    lemma_read_back_names(uid, input);
    lemma_read_back_others(uid, input);
}

// ---------------------------------------------------------------------
// The shape of escaped values
// ---------------------------------------------------------------------

/// A character that escaping writes as two: backslash, newline, comma or
/// semicolon.
pub open spec fn is_escaped_char(c: char) -> bool {
    c == '\\' || c == '\n' || c == ',' || c == ';'
}

/// How many characters of `s` escaping writes as two.
pub open spec fn escaped_count(s: Seq<char>) -> nat
    decreases s.len(),
{
    if s.len() == 0 {
        0
    } else if is_escaped_char(s[0]) {
        escaped_count(s.drop_first()) + 1
    } else {
        escaped_count(s.drop_first())
    }
}

/// An escaped value is one character longer than the value for each
/// backslash, newline, comma and semicolon in it, and holds no newline.
pub proof fn law_escape_length(s: Seq<char>)
    ensures
        escape(s).len() == s.len() + escaped_count(s),
        has_no(escape(s), '\n'),
    decreases s.len(),
{
    lemma_escape_no_newline(s);
    if s.len() > 0 {
        law_escape_length(s.drop_first());
    }
}

// ---------------------------------------------------------------------
// The lines of a written vCard
// ---------------------------------------------------------------------

/// 1 when an optional field is present and non-empty, 0 otherwise.
pub open spec fn present(o: Option<Seq<char>>) -> nat {
    if unwrap_or_empty(o).len() > 0 {
        1
    } else {
        0
    }
}

/// 1 when the written vCard has an N line (either name part is present
/// and non-empty), 0 otherwise.
pub open spec fn name_count(input: ContactInputView) -> nat {
    if present(input.first_name) == 1 || present(input.last_name) == 1 {
        1
    } else {
        0
    }
}

/// How many lines the vCard written for `input` has.
pub open spec fn written_line_count(input: ContactInputView) -> nat {
    5 + name_count(input) + input.emails.len() + input.phones.len() + present(input.org) + present(
        input.note,
    )
}

/// Which lines the vCard written for `input` under `uid` has, in order:
/// BEGIN, VERSION, UID and FN; an N line exactly when a name part is
/// non-empty; one EMAIL line per email and then one TEL line per phone, in
/// the order given; an ORG line and a NOTE line exactly when those fields
/// are non-empty; and END last.
pub proof fn law_written_lines(uid: Seq<char>, input: ContactInputView)
    ensures
        ({
            let lines = vcard_lines(uid, input);
            let n = name_count(input) as int;
            let ne = input.emails.len() as int;
            let np = input.phones.len() as int;
            let o = present(input.org) as int;
            &&& lines.len() == written_line_count(input)
            &&& lines[0] == "BEGIN:VCARD"@
            &&& lines[1] == "VERSION:3.0"@
            &&& lines[2] == "UID:"@ + escape(uid)
            &&& lines[3] == "FN:"@ + escape(input.full_name)
            &&& n == 1 ==> lines[4] == "N:"@ + escape(unwrap_or_empty(input.last_name)) + ";"@
                + escape(unwrap_or_empty(input.first_name)) + ";;;"@
            &&& forall|j: int|
                0 <= j < ne ==> #[trigger] lines[4 + n + j] == "EMAIL;TYPE=INTERNET:"@ + escape(
                    input.emails[j],
                )
            &&& forall|j: int|
                0 <= j < np ==> #[trigger] lines[4 + n + ne + j] == "TEL;TYPE=CELL:"@ + escape(
                    input.phones[j],
                )
            &&& o == 1 ==> lines[4 + n + ne + np] == "ORG:"@ + escape(unwrap_or_empty(input.org))
            &&& present(input.note) == 1 ==> lines[4 + n + ne + np + o] == "NOTE:"@ + escape(
                unwrap_or_empty(input.note),
            )
            &&& lines.last() == "END:VCARD"@
        }),
{
    let s0 = seq!["BEGIN:VCARD"@, "VERSION:3.0"@, "UID:"@ + escape(uid), "FN:"@ + escape(input.full_name)];
    let s1 = name_line(input.first_name, input.last_name);
    let s2 = prefixed_lines("EMAIL;TYPE=INTERNET:"@, input.emails);
    let s3 = prefixed_lines("TEL;TYPE=CELL:"@, input.phones);
    let s4 = optional_line("ORG:"@, input.org);
    let s5 = optional_line("NOTE:"@, input.note);
    let lines = vcard_lines(uid, input);
    assert(lines == s0 + s1 + s2 + s3 + s4 + s5 + seq!["END:VCARD"@]);
    let n = name_count(input) as int;
    let ne = input.emails.len() as int;
    let np = input.phones.len() as int;
    let o = present(input.org) as int;
    assert(s1.len() == n);
    assert(s4.len() == o);
    assert(s5.len() == present(input.note));
    assert forall|j: int| 0 <= j < ne implies #[trigger] lines[4 + n + j] == "EMAIL;TYPE=INTERNET:"@
        + escape(input.emails[j]) by {
        assert(lines[4 + n + j] == s2[j]);
    }
    assert forall|j: int| 0 <= j < np implies #[trigger] lines[4 + n + ne + j] == "TEL;TYPE=CELL:"@
        + escape(input.phones[j]) by {
        assert(lines[4 + n + ne + j] == s3[j]);
    }
    if o == 1 {
        assert(lines[4 + n + ne + np] == s4[0]);
    }
    if present(input.note) == 1 {
        assert(lines[4 + n + ne + np + o] == s5[0]);
    }
}

// ---------------------------------------------------------------------
// The text of a written vCard
// ---------------------------------------------------------------------

/// How many '\n' characters `s` holds.
pub open spec fn newline_count(s: Seq<char>) -> nat
    decreases s.len(),
{
    if s.len() == 0 {
        0
    } else if s.last() == '\n' {
        newline_count(s.drop_last()) + 1
    } else {
        newline_count(s.drop_last())
    }
}

/// How many times "\r\n" occurs in `s`, counted from the left without
/// overlap.
pub open spec fn crlf_count(s: Seq<char>) -> nat
    decreases s.len(),
{
    if s.len() < 2 {
        0
    } else if s[0] == '\r' && s[1] == '\n' {
        crlf_count(s.skip(2)) + 1
    } else {
        crlf_count(s.drop_first())
    }
}

/// Every '\n' of `s` directly follows a '\r'.
pub open spec fn lf_after_cr(s: Seq<char>) -> bool {
    forall|i: int| 0 <= i < s.len() && #[trigger] s[i] == '\n' ==> i > 0 && s[i - 1] == '\r'
}

/// The first four lines of the vCard written for `input` under `uid`.
pub open spec fn written_head(uid: Seq<char>, input: ContactInputView) -> Seq<char> {
    "BEGIN:VCARD"@ + "\r\n"@ + "VERSION:3.0"@ + "\r\n"@ + "UID:"@ + escape(uid) + "\r\n"@ + "FN:"@
        + escape(input.full_name) + "\r\n"@
}

proof fn lemma_newline_count_add(a: Seq<char>, b: Seq<char>)
    ensures
        newline_count(a + b) == newline_count(a) + newline_count(b),
    decreases b.len(),
{
    if b.len() == 0 {
        assert(a + b =~= a);
    } else {
        lemma_newline_count_add(a, b.drop_last());
        assert((a + b).drop_last() =~= a + b.drop_last());
    }
}

proof fn lemma_newline_count_none(s: Seq<char>)
    requires
        has_no(s, '\n'),
    ensures
        newline_count(s) == 0,
    decreases s.len(),
{
    if s.len() > 0 {
        lemma_newline_count_none(s.drop_last());
    }
}

proof fn lemma_crlf_text_add(a: Seq<Seq<char>>, b: Seq<Seq<char>>)
    ensures
        crlf_text(a + b) == crlf_text(a) + crlf_text(b),
    decreases b.len(),
{
    if b.len() == 0 {
        assert(a + b =~= a);
        assert(crlf_text(a) + Seq::<char>::empty() =~= crlf_text(a));
    } else {
        lemma_crlf_text_add(a, b.drop_last());
        assert((a + b).drop_last() =~= a + b.drop_last());
        assert(crlf_text(a) + crlf_text(b.drop_last()) + b.last() + "\r\n"@ =~= crlf_text(a) + (
        crlf_text(b.drop_last()) + b.last() + "\r\n"@));
    }
}

/// Lines without a '\n', each terminated by CRLF: every '\n' follows a
/// '\r', and there is one '\n' per line.
proof fn lemma_crlf_text_newlines(lines: Seq<Seq<char>>)
    requires
        forall|i: int| 0 <= i < lines.len() ==> has_no(#[trigger] lines[i], '\n'),
    ensures
        lf_after_cr(crlf_text(lines)),
        newline_count(crlf_text(lines)) == lines.len(),
    decreases lines.len(),
{
    reveal_strlit("\r\n");
    if lines.len() > 0 {
        let prev = lines.drop_last();
        let l = lines.last();
        assert(has_no(lines[lines.len() - 1], '\n'));
        lemma_crlf_text_newlines(prev);
        let p = crlf_text(prev);
        let t = crlf_text(lines);
        assert(t == p + l + "\r\n"@);
        lemma_newline_count_add(p + l, "\r\n"@);
        lemma_newline_count_add(p, l);
        lemma_newline_count_none(l);
        lemma_newline_count_crlf();
        assert forall|i: int| 0 <= i < t.len() && #[trigger] t[i] == '\n' implies i > 0 && t[i - 1]
            == '\r' by {
            if i < p.len() {
                assert(t[i] == p[i]);
                assert(t[i - 1] == p[i - 1]);
            } else if i < p.len() + l.len() {
                assert(t[i] == l[i - p.len()]);
            } else if i == p.len() + l.len() {
                assert(t[i] == '\r');
            } else {
                assert(t[i - 1] == '\r');
            }
        }
    }
}

proof fn lemma_newline_count_crlf()
    ensures
        newline_count(seq!['\r']) == 0,
        newline_count(seq!['\r', '\n']) == 1,
        newline_count("\r\n"@) == 1,
{
    reveal_strlit("\r\n");
    assert(seq!['\r'].drop_last() =~= Seq::<char>::empty());
    assert(newline_count(Seq::<char>::empty()) == 0);
    assert(seq!['\r'].last() == '\r');
    assert(newline_count(seq!['\r']) == 0);
    assert(seq!['\r', '\n'].drop_last() =~= seq!['\r']);
    assert("\r\n"@ =~= seq!['\r', '\n']);
}

proof fn lemma_crlf_count(s: Seq<char>)
    requires
        lf_after_cr(s),
    ensures
        crlf_count(s) == newline_count(s),
    decreases s.len(),
{
    lemma_newline_count_crlf();
    if s.len() == 1 {
        assert(s.drop_last() =~= Seq::<char>::empty());
        assert(s[0] != '\n');
        assert(s.last() == s[0]);
        assert(newline_count(s) == newline_count(s.drop_last()));
    } else if s.len() >= 2 {
        if s[0] == '\r' && s[1] == '\n' {
            let rest = s.skip(2);
            assert forall|j: int| 0 <= j < rest.len() && #[trigger] rest[j] == '\n' implies j > 0
                && rest[j - 1] == '\r' by {
                assert(s[j + 2] == '\n');
            }
            lemma_crlf_count(rest);
            assert(s =~= seq!['\r', '\n'] + rest);
            lemma_newline_count_add(seq!['\r', '\n'], rest);
        } else {
            let rest = s.drop_first();
            assert forall|j: int| 0 <= j < rest.len() && #[trigger] rest[j] == '\n' implies j > 0
                && rest[j - 1] == '\r' by {
                assert(s[j + 1] == '\n');
            }
            lemma_crlf_count(rest);
            assert(s =~= seq![s[0]] + rest);
            lemma_newline_count_add(seq![s[0]], rest);
            assert(s[0] != '\n');
            assert(seq![s[0]].drop_last() =~= Seq::<char>::empty());
            assert(newline_count(seq![s[0]]) == newline_count(Seq::<char>::empty()));
        }
    }
}

/// The text of the vCard written for `input` under `uid` starts with its
/// BEGIN, VERSION, UID and FN lines and ends with "END:VCARD" and CRLF;
/// every '\n' in it directly follows a '\r', and it holds one CRLF per
/// line: five, plus one for an N line, one per email and phone, and one
/// each for a non-empty organization and note.
pub proof fn law_written_text_shape(uid: Seq<char>, input: ContactInputView)
    ensures
        starts_with(vcard_text(uid, input), written_head(uid, input)),
        ends_with(vcard_text(uid, input), "END:VCARD"@ + "\r\n"@),
        lf_after_cr(vcard_text(uid, input)),
        crlf_count(vcard_text(uid, input)) == written_line_count(input),
{
    let lines = vcard_lines(uid, input);
    let text = vcard_text(uid, input);
    lemma_written_lines(uid, input);
    law_written_lines(uid, input);
    assert forall|i: int| 0 <= i < lines.len() implies has_no(#[trigger] lines[i], '\n') by {
        assert(plain_line(lines[i]));
    }
    lemma_crlf_text_newlines(lines);
    lemma_crlf_count(text);

    let s0 = seq!["BEGIN:VCARD"@, "VERSION:3.0"@, "UID:"@ + escape(uid), "FN:"@ + escape(input.full_name)];
    let rest = lines.skip(4);
    assert(lines =~= s0 + rest);
    lemma_crlf_text_add(s0, rest);
    let s3 = seq!["BEGIN:VCARD"@, "VERSION:3.0"@, "UID:"@ + escape(uid)];
    let s2 = seq!["BEGIN:VCARD"@, "VERSION:3.0"@];
    let s1 = seq!["BEGIN:VCARD"@];
    assert(s0.drop_last() =~= s3);
    assert(s3.drop_last() =~= s2);
    assert(s2.drop_last() =~= s1);
    assert(s1.drop_last() =~= Seq::<Seq<char>>::empty());
    assert(crlf_text(Seq::<Seq<char>>::empty()) == Seq::<char>::empty());
    assert(s1.last() == "BEGIN:VCARD"@);
    assert(crlf_text(s1) =~= "BEGIN:VCARD"@ + "\r\n"@);
    assert(crlf_text(s2) =~= "BEGIN:VCARD"@ + "\r\n"@ + "VERSION:3.0"@ + "\r\n"@);
    assert(crlf_text(s3) =~= "BEGIN:VCARD"@ + "\r\n"@ + "VERSION:3.0"@ + "\r\n"@ + "UID:"@
        + escape(uid) + "\r\n"@);
    assert(crlf_text(s0) =~= written_head(uid, input));
    assert(text.take(written_head(uid, input).len() as int) =~= written_head(uid, input));

    let body = crlf_text(lines.drop_last());
    assert(text == body + "END:VCARD"@ + "\r\n"@);
    assert(text.skip(text.len() - ("END:VCARD"@ + "\r\n"@).len()) =~= "END:VCARD"@ + "\r\n"@);
}

// ---------------------------------------------------------------------
// Where a property line splits
// ---------------------------------------------------------------------

/// How many '"' come before index `i` of `line`.
pub open spec fn quotes_before(line: Seq<char>, i: int) -> nat
    decreases i,
{
    if i <= 0 || i > line.len() {
        0
    } else if line[i - 1] == '"' {
        quotes_before(line, i - 1) + 1
    } else {
        quotes_before(line, i - 1)
    }
}

/// A ':' of `line` outside double quotes: an even number of '"' comes
/// before it.
pub open spec fn free_colon(line: Seq<char>, i: int) -> bool {
    0 <= i < line.len() && line[i] == ':' && quotes_before(line, i) % 2 == 0
}

proof fn lemma_colon_from_free(line: Seq<char>, i: int, in_quotes: bool)
    requires
        0 <= i <= line.len(),
        in_quotes == (quotes_before(line, i) % 2 == 1),
    ensures
        match colon_from(line, i, in_quotes) {
            Some(k) => i <= k && free_colon(line, k) && forall|j: int|
                i <= j < k ==> !#[trigger] free_colon(line, j),
            None => forall|j: int| i <= j < line.len() ==> !#[trigger] free_colon(line, j),
        },
    decreases line.len() - i,
{
    if i < line.len() {
        assert(quotes_before(line, i + 1) == quotes_before(line, i) + (if line[i] == '"' {
            1nat
        } else {
            0nat
        }));
        if line[i] == '"' {
            lemma_colon_from_free(line, i + 1, !in_quotes);
        } else if line[i] == ':' && !in_quotes {
        } else {
            lemma_colon_from_free(line, i + 1, in_quotes);
        }
    }
}

/// A property line splits at its first ':' that has an even number of '"'
/// before it (every ':' of the name part stands inside quotes); a line
/// without such a ':' does not split.
pub proof fn law_value_colon_is_first_free_colon(line: Seq<char>)
    ensures
        match value_colon(line) {
            Some(k) => free_colon(line, k) && forall|j: int| 0 <= j < k ==> !#[trigger] free_colon(line, j),
            None => forall|j: int| 0 <= j < line.len() ==> !#[trigger] free_colon(line, j),
        },
{
    lemma_colon_from_free(line, 0, false);
}

// ---------------------------------------------------------------------
// What unfolding keeps
// ---------------------------------------------------------------------

/// Some segment of `segs` is non-empty.
pub open spec fn has_content(segs: Seq<Seq<char>>) -> bool
    decreases segs.len(),
{
    segs.len() > 0 && (segs.last().len() > 0 || has_content(segs.drop_last()))
}

/// Segment `i` continues the previous logical line: it starts with a space
/// or a tab, and some segment before it is non-empty.
pub open spec fn continues(segs: Seq<Seq<char>>, i: int) -> bool {
    is_continuation(segs[i]) && has_content(segs.take(i))
}

/// How many logical lines start in `segs`: the non-empty segments that do
/// not continue a line.
pub open spec fn line_starts(segs: Seq<Seq<char>>) -> nat
    decreases segs.len(),
{
    if segs.len() == 0 {
        0
    } else if segs.last().len() > 0 && !continues(segs, segs.len() - 1) {
        line_starts(segs.drop_last()) + 1
    } else {
        line_starts(segs.drop_last())
    }
}

/// The characters of `segs` that unfolding keeps: every segment, less the
/// leading space or tab of each continuation.
pub open spec fn kept_chars(segs: Seq<Seq<char>>) -> Seq<char>
    decreases segs.len(),
{
    if segs.len() == 0 {
        Seq::empty()
    } else if continues(segs, segs.len() - 1) {
        kept_chars(segs.drop_last()) + segs.last().drop_first()
    } else {
        kept_chars(segs.drop_last()) + segs.last()
    }
}

/// Lines joined with nothing between them.
pub open spec fn concat(lines: Seq<Seq<char>>) -> Seq<char>
    decreases lines.len(),
{
    if lines.len() == 0 {
        Seq::empty()
    } else {
        concat(lines.drop_last()) + lines.last()
    }
}

proof fn lemma_unfold_segments(segs: Seq<Seq<char>>)
    ensures
        unfold_segments(segs).len() == line_starts(segs),
        unfold_segments(segs).len() > 0 <==> has_content(segs),
        concat(unfold_segments(segs)) == kept_chars(segs),
        (forall|i: int| 0 <= i < segs.len() ==> has_no(#[trigger] segs[i], '\n')) ==> forall|k: int|
            0 <= k < unfold_segments(segs).len() ==> (#[trigger] unfold_segments(segs)[k]).len() > 0
                && has_no(unfold_segments(segs)[k], '\n'),
    decreases segs.len(),
{
    if segs.len() > 0 {
        let prev = segs.drop_last();
        let seg = segs.last();
        lemma_unfold_segments(prev);
        assert(segs.take(segs.len() - 1) =~= prev);
        let l = unfold_segments(prev);
        let r = unfold_segments(segs);
        if is_continuation(seg) && l.len() > 0 {
            let n = l.len() - 1;
            assert(r.drop_last() =~= l.drop_last());
            assert(concat(l) == concat(l.drop_last()) + l.last());
            assert(concat(r) =~= concat(l) + seg.drop_first());
        } else if seg.len() > 0 {
            assert(r.drop_last() =~= l);
        } else {
            assert(concat(l) + seg =~= concat(l));
        }
        if forall|i: int| 0 <= i < segs.len() ==> has_no(#[trigger] segs[i], '\n') {
            assert(forall|i: int| 0 <= i < prev.len() ==> has_no(#[trigger] prev[i], '\n')) by {
                assert forall|i: int| 0 <= i < prev.len() implies has_no(#[trigger] prev[i], '\n') by {
                    assert(prev[i] == segs[i]);
                }
            }
            assert(has_no(segs[segs.len() - 1], '\n'));
            if is_continuation(seg) && l.len() > 0 {
                let n = l.len() - 1;
                assert(l[n].len() > 0 && has_no(l[n], '\n'));
                lemma_has_no_add(l[n], seg.drop_first(), '\n');
                assert forall|k: int| 0 <= k < r.len() implies (#[trigger] r[k]).len() > 0 && has_no(
                    r[k],
                    '\n',
                ) by {
                    if k < n {
                        assert(r[k] == l[k]);
                    }
                }
            } else if seg.len() > 0 {
                assert forall|k: int| 0 <= k < r.len() implies (#[trigger] r[k]).len() > 0 && has_no(
                    r[k],
                    '\n',
                ) by {
                    if k < l.len() {
                        assert(r[k] == l[k]);
                    }
                }
            }
        }
    }
}

proof fn lemma_split_on_pieces(s: Seq<char>, sep: char)
    ensures
        forall|i: int| 0 <= i < split_on(s, sep).len() ==> has_no(#[trigger] split_on(s, sep)[i], sep),
    decreases s.len(),
{
    if s.len() > 0 {
        lemma_split_on_pieces(s.drop_last(), sep);
        crate::text::lemma_split_on_nonempty(s.drop_last(), sep);
        let p = split_on(s.drop_last(), sep);
        let q = split_on(s, sep);
        if s.last() != sep {
            let n = p.len() - 1;
            assert forall|i: int| 0 <= i < q.len() implies has_no(#[trigger] q[i], sep) by {
                if i == n {
                    assert(has_no(p[n], sep));
                    assert forall|j: int| 0 <= j < q[i].len() implies q[i][j] != sep by {
                        if j < p[n].len() {
                            assert(q[i][j] == p[n][j]);
                        }
                    }
                } else {
                    assert(q[i] == p[i]);
                }
            }
        } else {
            assert forall|i: int| 0 <= i < q.len() implies has_no(#[trigger] q[i], sep) by {
                if i < p.len() {
                    assert(q[i] == p[i]);
                }
            }
        }
    }
}

/// Unfolding a vCard text, whose physical lines `segs` are the pieces
/// between its line breaks (CRLF or LF): one logical line per non-empty
/// physical line that does not continue the one before (a continuation
/// starts with a space or a tab and follows some non-empty line); every
/// logical line is non-empty and holds no line break; and the logical
/// lines together hold the physical lines' characters in order, less the
/// leading space or tab of each continuation.
pub proof fn law_unfold_lines(text: Seq<char>)
    ensures
        ({
            let segs = split_on(normalize_newlines(text), '\n');
            let lines = unfold_lines(text);
            &&& lines.len() == line_starts(segs)
            &&& lines.len() > 0 <==> has_content(segs)
            &&& concat(lines) == kept_chars(segs)
            &&& forall|k: int|
                0 <= k < lines.len() ==> (#[trigger] lines[k]).len() > 0 && has_no(lines[k], '\n')
        }),
{
    let segs = split_on(normalize_newlines(text), '\n');
    lemma_split_on_pieces(normalize_newlines(text), '\n');
    lemma_unfold_segments(segs);
}

/// How many '\\' come directly before index `i` of `s`.
pub open spec fn backslashes_before(s: Seq<char>, i: int) -> nat
    decreases i,
{
    if i <= 0 || i > s.len() {
        0
    } else if s[i - 1] == '\\' {
        backslashes_before(s, i - 1) + 1
    } else {
        0
    }
}

proof fn lemma_escape_push(s: Seq<char>)
    requires
        s.len() > 0,
    ensures
        escape(s) == escape(s.drop_last()) + escape_char(s.last()),
    decreases s.len(),
{
    if s.len() == 1 {
        assert(s.drop_last() =~= Seq::<char>::empty());
        assert(s.drop_first() =~= Seq::<char>::empty());
        assert(escape_char(s[0]) + Seq::<char>::empty() =~= escape_char(s[0]));
        assert(Seq::<char>::empty() + escape_char(s[0]) =~= escape_char(s[0]));
    } else {
        lemma_escape_push(s.drop_first());
        assert(s.drop_first().drop_last() =~= s.drop_last().drop_first());
        assert(s.drop_first().last() == s.last());
        assert(s.drop_last()[0] == s[0]);
        assert(escape_char(s[0]) + (escape(s.drop_last().drop_first()) + escape_char(s.last()))
            =~= (escape_char(s[0]) + escape(s.drop_last().drop_first())) + escape_char(s.last()));
    }
}

proof fn lemma_backslashes_prefix(a: Seq<char>, b: Seq<char>, i: int)
    requires
        0 <= i <= a.len(),
    ensures
        backslashes_before(a + b, i) == backslashes_before(a, i),
    decreases i,
{
    if i > 0 {
        assert((a + b)[i - 1] == a[i - 1]);
        lemma_backslashes_prefix(a, b, i - 1);
    }
}

/// Every ',' and ';' of an escaped value comes directly after an odd
/// number of backslashes: it is escaped, and the backslash that escapes it
/// is not itself escaped.
pub proof fn law_escape_separators_escaped(s: Seq<char>)
    ensures
        backslashes_before(escape(s), escape(s).len() as int) % 2 == 0,
        forall|i: int|
            0 <= i < escape(s).len() && (#[trigger] escape(s)[i] == ',' || escape(s)[i] == ';')
                ==> backslashes_before(escape(s), i) % 2 == 1,
    decreases s.len(),
{
    if s.len() > 0 {
        let a = escape(s.drop_last());
        let c = s.last();
        let t = escape_char(c);
        law_escape_separators_escaped(s.drop_last());
        lemma_escape_push(s);
        let e = escape(s);
        let m = a.len() as int;
        assert(e == a + t);
        lemma_backslashes_prefix(a, t, m);
        assert forall|i: int| 0 <= i <= m implies backslashes_before(e, i) == backslashes_before(
            a,
            i,
        ) by {
            lemma_backslashes_prefix(a, t, i);
        }
        assert(e[m] == t[0]);
        if t.len() == 2 {
            assert(e[m + 1] == t[1]);
            assert(backslashes_before(e, m + 1) == backslashes_before(e, m) + 1);
        }
        assert forall|i: int|
            0 <= i < e.len() && (#[trigger] e[i] == ',' || e[i] == ';') implies backslashes_before(
            e,
            i,
        ) % 2 == 1 by {
            if i < m {
                assert(e[i] == a[i]);
            }
        }
    }
}

/// A logical line gives a property exactly when it has a ':' outside
/// double quotes and, trimmed, is neither "BEGIN:VCARD" nor "END:VCARD" in
/// any case: every other line, such as "BDAY:1990-01-01", is read. The
/// property is named by what comes before the first such ':' and its value
/// is what follows it, unescaped.
pub proof fn law_parse_line(line: Seq<char>)
    ensures
        parse_line(line) is Some <==> ((exists|k: int| free_colon(line, k))
            && !eq_ignore_ascii_case(trim(line), "BEGIN:VCARD"@) && !eq_ignore_ascii_case(
            trim(line),
            "END:VCARD"@,
        )),
        parse_line(line) matches Some(p) ==> exists|k: int|
            #[trigger] free_colon(line, k) && (forall|j: int| 0 <= j < k ==> !free_colon(line, j))
                && p.name == property_name(line.take(k)) && p.value == unescape(line.skip(k + 1)),
{
    law_value_colon_is_first_free_colon(line);
    if let Some(k) = value_colon(line) {
        assert(free_colon(line, k));
    }
}

} // verus!
