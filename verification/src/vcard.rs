//! Minimal vCard 3.0/4.0 parsing and serialization, covering just the
//! properties this server cares about for contact management (FN, N,
//! EMAIL, TEL, ORG, NOTE, UID).

use vstd::prelude::*;
use crate::text::{
    after_last, after_last_chars, chars_eq_ignore_ascii_case, chars_of, eq_ignore_ascii_case,
    first_index_of, opt_chars, push_char, slice_chars, split_on, string_of, string_views,
    take_until, take_until_chars, trim, trim_chars, upper_chars, upper_seq,
};

verus! {

// ---------------------------------------------------------------------
// Types and their views
// ---------------------------------------------------------------------

#[derive(Debug, Clone)]
pub struct Property {
    pub name: String,
    pub value: String,
}

/// A property as plain character sequences.
pub struct PropertyView {
    pub name: Seq<char>,
    pub value: Seq<char>,
}

impl View for Property {
    type V = PropertyView;

    open spec fn view(&self) -> PropertyView {
        PropertyView { name: self.name@, value: self.value@ }
    }
}

#[derive(Debug, Clone, Default)]
pub struct Vcard {
    pub properties: Vec<Property>,
}

impl View for Vcard {
    type V = Seq<PropertyView>;

    open spec fn view(&self) -> Seq<PropertyView> {
        self.properties@.map_values(|p: Property| p@)
    }
}

pub open spec fn line_views(v: Seq<Vec<char>>) -> Seq<Seq<char>> {
    v.map_values(|l: Vec<char>| l@)
}

// ---------------------------------------------------------------------
// Unfolding
// ---------------------------------------------------------------------

/// Every "\r\n" replaced by "\n", scanning left to right.
pub open spec fn normalize_newlines(s: Seq<char>) -> Seq<char>
    decreases s.len(),
{
    if s.len() == 0 {
        Seq::empty()
    } else if s.len() >= 2 && s[0] == '\r' && s[1] == '\n' {
        seq!['\n'] + normalize_newlines(s.skip(2))
    } else {
        seq![s[0]] + normalize_newlines(s.drop_first())
    }
}

/// A physical line that continues the previous logical line (RFC 6350
/// section 3.2): it starts with a space or a tab.
pub open spec fn is_continuation(seg: Seq<char>) -> bool {
    seg.len() > 0 && (seg[0] == ' ' || seg[0] == '\t')
}

/// Adds one physical line to the logical lines read so far.
pub open spec fn unfold_step(lines: Seq<Seq<char>>, seg: Seq<char>) -> Seq<Seq<char>> {
    if is_continuation(seg) && lines.len() > 0 {
        lines.update(lines.len() - 1, lines.last() + seg.drop_first())
    } else if seg.len() > 0 {
        lines.push(seg)
    } else {
        lines
    }
}

pub open spec fn unfold_segments(segs: Seq<Seq<char>>) -> Seq<Seq<char>>
    decreases segs.len(),
{
    if segs.len() == 0 {
        Seq::empty()
    } else {
        unfold_step(unfold_segments(segs.drop_last()), segs.last())
    }
}

/// The logical lines of a vCard text.
pub open spec fn unfold_lines(text: Seq<char>) -> Seq<Seq<char>> {
    unfold_segments(split_on(normalize_newlines(text), '\n'))
}

fn unfold_step_exec(lines: &mut Vec<Vec<char>>, seg: Vec<char>)
    ensures
        line_views(final(lines)@) == unfold_step(line_views(old(lines)@), seg@),
{
    if seg.len() > 0 && (seg[0] == ' ' || seg[0] == '\t') && lines.len() > 0 {
        let ghost before = line_views(lines@);
        let mut last = lines.pop().unwrap();
        let mut k: usize = 1;
        let ghost start = last@;
        while k < seg.len()
            invariant
                1 <= k <= seg@.len(),
                last@ == start + seg@.subrange(1, k as int),
            decreases seg@.len() - k,
        {
            last.push(seg[k]);
            assert(seg@.subrange(1, k + 1) =~= seg@.subrange(1, k as int).push(seg@[k as int]));
            k += 1;
        }
        assert(seg@.subrange(1, seg@.len() as int) =~= seg@.drop_first());
        lines.push(last);
        assert(line_views(lines@) =~= before.update(before.len() - 1, before.last()
            + seg@.drop_first()));
    } else if seg.len() > 0 {
        lines.push(seg);
        assert(line_views(lines@) =~= line_views(old(lines)@).push(seg@));
    }
}

/// Un-fold CRLF/LF-wrapped vCard content into logical lines. Continuation
/// lines start with a space or tab per RFC 6350 section 3.2.
fn unfold(input: &str) -> (lines: Vec<Vec<char>>)
    ensures
        line_views(lines@) == unfold_lines(input@),
{
    let cs = chars_of(input);
    let mut norm: Vec<char> = Vec::new();
    let mut i: usize = 0;
    assert(cs@.skip(0) =~= cs@);
    while i < cs.len()
        invariant
            i <= cs@.len(),
            normalize_newlines(cs@) == norm@ + normalize_newlines(cs@.skip(i as int)),
        decreases cs@.len() - i,
    {
        let ghost rest = cs@.skip(i as int);
        if cs[i] == '\r' && i + 1 < cs.len() && cs[i + 1] == '\n' {
            assert(rest[0] == '\r' && rest[1] == '\n');
            assert(rest.skip(2) =~= cs@.skip(i + 2));
            norm.push('\n');
            i += 2;
        } else {
            assert(rest.drop_first() =~= cs@.skip(i + 1));
            norm.push(cs[i]);
            i += 1;
        }
    }
    assert(cs@.skip(i as int) =~= Seq::<char>::empty());
    assert(norm@ + Seq::<char>::empty() =~= norm@);
    let mut lines: Vec<Vec<char>> = Vec::new();
    let mut cur: Vec<char> = Vec::new();
    let mut j: usize = 0;
    assert(norm@.take(0) =~= Seq::<char>::empty());
    assert(line_views(lines@) =~= Seq::<Seq<char>>::empty());
    while j < norm.len()
        invariant
            j <= norm@.len(),
            split_on(norm@.take(j as int), '\n').len() >= 1,
            cur@ == split_on(norm@.take(j as int), '\n').last(),
            line_views(lines@) == unfold_segments(split_on(norm@.take(j as int), '\n').drop_last()),
        decreases norm@.len() - j,
    {
        let c = norm[j];
        let ghost p = split_on(norm@.take(j as int), '\n');
        assert(norm@.take(j + 1).drop_last() =~= norm@.take(j as int));
        if c == '\n' {
            assert(split_on(norm@.take(j + 1), '\n').drop_last() =~= p);
            unfold_step_exec(&mut lines, cur);
            cur = Vec::new();
        } else {
            assert(split_on(norm@.take(j + 1), '\n').drop_last() =~= p.drop_last());
            cur.push(c);
        }
        j += 1;
    }
    assert(norm@.take(norm@.len() as int) =~= norm@);
    unfold_step_exec(&mut lines, cur);
    lines
}

// ---------------------------------------------------------------------
// Escaping
// ---------------------------------------------------------------------

/// The character an escape sequence `\c` stands for.
pub open spec fn unescape_char(c: char) -> char {
    if c == 'n' || c == 'N' {
        '\n'
    } else {
        c
    }
}

/// A property value with its backslash escapes resolved; a lone trailing
/// backslash is dropped.
pub open spec fn unescape(s: Seq<char>) -> Seq<char>
    decreases s.len(),
{
    if s.len() == 0 {
        Seq::empty()
    } else if s[0] == '\\' {
        if s.len() == 1 {
            Seq::empty()
        } else {
            seq![unescape_char(s[1])] + unescape(s.skip(2))
        }
    } else {
        seq![s[0]] + unescape(s.drop_first())
    }
}

/// How one character of a value is written out.
pub open spec fn escape_char(c: char) -> Seq<char> {
    if c == '\\' {
        seq!['\\', '\\']
    } else if c == '\n' {
        seq!['\\', 'n']
    } else if c == ',' {
        seq!['\\', ',']
    } else if c == ';' {
        seq!['\\', ';']
    } else {
        seq![c]
    }
}

/// A value written out with backslash, newline, comma and semicolon escaped.
pub open spec fn escape(s: Seq<char>) -> Seq<char>
    decreases s.len(),
{
    if s.len() == 0 {
        Seq::empty()
    } else {
        escape_char(s[0]) + escape(s.drop_first())
    }
}

fn unescape_chars(value: &[char]) -> (out: String)
    ensures
        out@ == unescape(value@),
{
    let mut out = String::new();
    let mut i: usize = 0;
    assert(value@.skip(0) =~= value@);
    while i < value.len()
        invariant
            i <= value@.len(),
            unescape(value@) == out@ + unescape(value@.skip(i as int)),
        decreases value@.len() - i,
    {
        let ghost rest = value@.skip(i as int);
        let c = value[i];
        if c == '\\' {
            if i + 1 < value.len() {
                let d = value[i + 1];
                let e = if d == 'n' || d == 'N' {
                    '\n'
                } else {
                    d
                };
                assert(rest.skip(2) =~= value@.skip(i + 2));
                let ghost prev = out@;
                push_char(&mut out, e);
                assert(unescape(rest) == seq![e] + unescape(value@.skip(i + 2)));
                assert(prev + (seq![e] + unescape(value@.skip(i + 2))) =~= out@ + unescape(
                    value@.skip(i + 2),
                ));
                i += 2;
            } else {
                assert(unescape(rest) =~= Seq::<char>::empty());
                assert(value@.skip(i + 1) =~= Seq::<char>::empty());
                i += 1;
            }
        } else {
            assert(rest.drop_first() =~= value@.skip(i + 1));
            let ghost prev = out@;
            push_char(&mut out, c);
            assert(prev + (seq![c] + unescape(value@.skip(i + 1))) =~= out@ + unescape(
                value@.skip(i + 1),
            ));
            i += 1;
        }
    }
    assert(value@.skip(i as int) =~= Seq::<char>::empty());
    out
}

/// A property value read with its backslash escapes resolved: `\n` and
/// `\N` give a newline, any other escaped character stands for itself, and
/// a lone trailing backslash is dropped.
pub fn unescape_value(value: &str) -> (out: String)
    ensures
        out@ == unescape(value@),
{
    unescape_chars(chars_of(value).as_slice())
}

/// A value written for a vCard property: backslash, newline, comma and
/// semicolon escaped with a backslash (a newline as `\n`).
pub fn escape_value(value: &str) -> (out: String)
    ensures
        out@ == escape(value@),
{
    let cs = chars_of(value);
    let mut out = String::new();
    let mut i: usize = 0;
    assert(cs@.skip(0) =~= cs@);
    while i < cs.len()
        invariant
            i <= cs@.len(),
            escape(cs@) == out@ + escape(cs@.skip(i as int)),
        decreases cs@.len() - i,
    {
        let c = cs[i];
        let ghost prev = out@;
        assert(cs@.skip(i as int).drop_first() =~= cs@.skip(i + 1));
        if c == '\\' {
            push_char(&mut out, '\\');
            push_char(&mut out, '\\');
        } else if c == '\n' {
            push_char(&mut out, '\\');
            push_char(&mut out, 'n');
        } else if c == ',' {
            push_char(&mut out, '\\');
            push_char(&mut out, ',');
        } else if c == ';' {
            push_char(&mut out, '\\');
            push_char(&mut out, ';');
        } else {
            push_char(&mut out, c);
        }
        assert(out@ =~= prev + escape_char(c));
        assert(prev + (escape_char(c) + escape(cs@.skip(i + 1))) =~= out@ + escape(
            cs@.skip(i + 1),
        ));
        i += 1;
    }
    assert(cs@.skip(i as int) =~= Seq::<char>::empty());
    assert(out@ + Seq::<char>::empty() =~= out@);
    out
}

// ---------------------------------------------------------------------
// Parsing
// ---------------------------------------------------------------------

/// The index of the first ':' at or after `i` that is not inside a
/// double-quoted parameter value, given whether `i` is inside quotes.
pub open spec fn colon_from(line: Seq<char>, i: int, in_quotes: bool) -> Option<int>
    decreases line.len() - i,
{
    if i < 0 || i >= line.len() {
        None
    } else if line[i] == '"' {
        colon_from(line, i + 1, !in_quotes)
    } else if line[i] == ':' && !in_quotes {
        Some(i)
    } else {
        colon_from(line, i + 1, in_quotes)
    }
}

/// Where a property line splits into "name+params" and "value".
pub open spec fn value_colon(line: Seq<char>) -> Option<int> {
    colon_from(line, 0, false)
}

proof fn lemma_colon_from_bounds(line: Seq<char>, i: int, in_quotes: bool)
    ensures
        colon_from(line, i, in_quotes) matches Some(k) ==> 0 <= i <= k < line.len(),
    decreases line.len() - i,
{
    if 0 <= i < line.len() {
        lemma_colon_from_bounds(line, i + 1, !in_quotes);
        lemma_colon_from_bounds(line, i + 1, in_quotes);
    }
}

/// Split a raw property line at the ':' that ends the name part,
/// respecting that a ':' inside a quoted parameter value doesn't end it.
fn split_name_and_value(line: &[char]) -> (r: Option<usize>)
    ensures
        r matches Some(k) ==> value_colon(line@) == Some(k as int) && k < line@.len(),
        r is None ==> value_colon(line@) is None,
{
    let mut in_quotes = false;
    let mut i: usize = 0;
    while i < line.len()
        invariant
            i <= line@.len(),
            value_colon(line@) == colon_from(line@, i as int, in_quotes),
        decreases line@.len() - i,
    {
        let c = line[i];
        if c == '"' {
            in_quotes = !in_quotes;
        } else if c == ':' && !in_quotes {
            return Some(i);
        }
        i += 1;
    }
    None
}

/// The upper-cased property name of a "name+params" part: the text before
/// the first ';', with a "GROUP." prefix stripped.
pub open spec fn property_name(head: Seq<char>) -> Seq<char> {
    upper_seq(after_last(take_until(head, ';'), '.'))
}

/// A logical line that only marks where the card begins or ends.
pub open spec fn is_marker_line(line: Seq<char>) -> bool {
    ||| eq_ignore_ascii_case(trim(line), "BEGIN:VCARD"@)
    ||| eq_ignore_ascii_case(trim(line), "END:VCARD"@)
}

/// The property a logical line holds, if any.
pub open spec fn parse_line(line: Seq<char>) -> Option<PropertyView> {
    if is_marker_line(line) {
        None
    } else {
        match value_colon(line) {
            Some(k) => Some(
                PropertyView { name: property_name(line.take(k)), value: unescape(line.skip(k + 1)) },
            ),
            None => None,
        }
    }
}

/// The properties that a sequence of logical lines holds, in order.
pub open spec fn parse_lines(lines: Seq<Seq<char>>) -> Seq<PropertyView>
    decreases lines.len(),
{
    if lines.len() == 0 {
        Seq::empty()
    } else {
        match parse_line(lines.last()) {
            Some(p) => parse_lines(lines.drop_last()).push(p),
            None => parse_lines(lines.drop_last()),
        }
    }
}

/// The properties of a vCard text.
pub open spec fn parse_spec(text: Seq<char>) -> Seq<PropertyView> {
    parse_lines(unfold_lines(text))
}

fn parse_line_exec(line: &[char], begin: &[char], end: &[char]) -> (r: Option<Property>)
    requires
        begin@ == "BEGIN:VCARD"@,
        end@ == "END:VCARD"@,
    ensures
        r matches Some(p) ==> parse_line(line@) == Some(p@),
        r is None ==> parse_line(line@) is None,
{
    let trimmed = trim_chars(line);
    if chars_eq_ignore_ascii_case(&trimmed, begin) || chars_eq_ignore_ascii_case(&trimmed, end) {
        return None;
    }
    match split_name_and_value(line) {
        None => None,
        Some(k) => {
            let head = slice_chars(line, 0, k);
            assert(head@ =~= line@.take(k as int));
            let name_part = take_until_chars(&head, ';');
            let name = upper_chars(&after_last_chars(&name_part, '.'));
            let n = line.len();
            let raw_value = slice_chars(line, k + 1, n);
            assert(raw_value@ =~= line@.skip(k + 1));
            let value = unescape_chars(&raw_value);
            Some(Property { name: string_of(&name), value })
        },
    }
}

/// Parses a vCard text into its properties, in order. BEGIN/END marker
/// lines and lines without a name/value separator are skipped; every
/// other logical line gives one property.
pub fn parse(text: &str) -> (card: Vcard)
    ensures
        card@ == parse_spec(text@),
{
    let lines = unfold(text);
    let begin = chars_of("BEGIN:VCARD");
    let end = chars_of("END:VCARD");
    let mut properties: Vec<Property> = Vec::new();
    let mut i: usize = 0;
    let ghost all = line_views(lines@);
    assert(all.take(0) =~= Seq::<Seq<char>>::empty());
    while i < lines.len()
        invariant
            i <= lines@.len(),
            all == line_views(lines@),
            begin@ == "BEGIN:VCARD"@,
            end@ == "END:VCARD"@,
            properties@.map_values(|p: Property| p@) == parse_lines(all.take(i as int)),
        decreases lines@.len() - i,
    {
        assert(all.take(i + 1).drop_last() =~= all.take(i as int));
        assert(all.take(i + 1).last() == lines@[i as int]@);
        let ghost before = properties@;
        match parse_line_exec(&lines[i], &begin, &end) {
            Some(p) => {
                properties.push(p);
                assert(properties@.map_values(|p: Property| p@) =~= before.map_values(
                    |p: Property| p@,
                ).push(p@));
            },
            None => {},
        }
        i += 1;
    }
    assert(all.take(lines@.len() as int) =~= all);
    Vcard { properties }
}

// ---------------------------------------------------------------------
// Looking up properties
// ---------------------------------------------------------------------

/// The first property called `name`, if any.
pub open spec fn lookup(props: Seq<PropertyView>, name: Seq<char>) -> Option<PropertyView>
    decreases props.len(),
{
    if props.len() == 0 {
        None
    } else if props[0].name == name {
        Some(props[0])
    } else {
        lookup(props.drop_first(), name)
    }
}

/// All properties called `name`, in order.
pub open spec fn named(props: Seq<PropertyView>, name: Seq<char>) -> Seq<PropertyView> {
    props.filter(|p: PropertyView| p.name == name)
}

/// The values of some properties, in order.
pub open spec fn values(props: Seq<PropertyView>) -> Seq<Seq<char>> {
    props.map_values(|p: PropertyView| p.value)
}

impl Vcard {
    /// The first property called `name`.
    pub fn get(&self, name: &str) -> (r: Option<&Property>)
        ensures
            r matches Some(p) ==> lookup(self@, name@) == Some(p@),
            r is None ==> lookup(self@, name@) is None,
    {
        let key = String::from_str(name);
        let mut i: usize = 0;
        assert(self@.skip(0) =~= self@);
        while i < self.properties.len()
            invariant
                i <= self@.len(),
                self@.len() == self.properties@.len(),
                key@ == name@,
                lookup(self@, name@) == lookup(self@.skip(i as int), name@),
            decreases self@.len() - i,
        {
            let p = &self.properties[i];
            assert(self@.skip(i as int)[0] == p@);
            if p.name == key {
                return Some(p);
            }
            assert(self@.skip(i as int).drop_first() =~= self@.skip(i + 1));
            i += 1;
        }
        None
    }

    /// All properties called `name`, in order.
    pub fn get_all(&self, name: &str) -> (r: Vec<&Property>)
        ensures
            r@.map_values(|p: &Property| p@) == named(self@, name@),
    {
        let key = String::from_str(name);
        let mut r: Vec<&Property> = Vec::new();
        let mut i: usize = 0;
        assert(self@.take(0) =~= Seq::<PropertyView>::empty());
        proof {
            reveal(Seq::filter);
        }
        while i < self.properties.len()
            invariant
                i <= self@.len(),
                self@.len() == self.properties@.len(),
                key@ == name@,
                r@.map_values(|p: &Property| p@) == named(self@.take(i as int), name@),
            decreases self@.len() - i,
        {
            let p = &self.properties[i];
            let ghost before = r@;
            proof {
                reveal(Seq::filter);
                assert(self@.take(i + 1).drop_last() =~= self@.take(i as int));
                assert(self@.take(i + 1).last() == p@);
            }
            if p.name == key {
                r.push(p);
                assert(r@.map_values(|p: &Property| p@) =~= before.map_values(|p: &Property| p@).push(
                    p@,
                ));
            }
            i += 1;
        }
        assert(self@.take(self@.len() as int) =~= self@);
        r
    }
}

// ---------------------------------------------------------------------
// Contacts
// ---------------------------------------------------------------------

/// A contact as exposed by the API, with a flattened structure that's
/// convenient for JSON clients (rather than raw vCard properties).
#[derive(Debug, Clone)]
pub struct Contact {
    pub uid: String,
    pub full_name: String,
    pub first_name: Option<String>,
    pub last_name: Option<String>,
    pub emails: Vec<String>,
    pub phones: Vec<String>,
    pub org: Option<String>,
    pub note: Option<String>,
}

pub struct ContactView {
    pub uid: Seq<char>,
    pub full_name: Seq<char>,
    pub first_name: Option<Seq<char>>,
    pub last_name: Option<Seq<char>>,
    pub emails: Seq<Seq<char>>,
    pub phones: Seq<Seq<char>>,
    pub org: Option<Seq<char>>,
    pub note: Option<Seq<char>>,
}

impl View for Contact {
    type V = ContactView;

    open spec fn view(&self) -> ContactView {
        ContactView {
            uid: self.uid@,
            full_name: self.full_name@,
            first_name: opt_chars(self.first_name),
            last_name: opt_chars(self.last_name),
            emails: string_views(self.emails@),
            phones: string_views(self.phones@),
            org: opt_chars(self.org),
            note: opt_chars(self.note),
        }
    }
}

/// Fields accepted when creating or updating a contact. The uid is either
/// generated server-side (create) or taken from the URL path (update).
#[derive(Debug, Clone)]
pub struct ContactInput {
    pub full_name: String,
    pub first_name: Option<String>,
    pub last_name: Option<String>,
    pub emails: Vec<String>,
    pub phones: Vec<String>,
    pub org: Option<String>,
    pub note: Option<String>,
}

pub struct ContactInputView {
    pub full_name: Seq<char>,
    pub first_name: Option<Seq<char>>,
    pub last_name: Option<Seq<char>>,
    pub emails: Seq<Seq<char>>,
    pub phones: Seq<Seq<char>>,
    pub org: Option<Seq<char>>,
    pub note: Option<Seq<char>>,
}

impl View for ContactInput {
    type V = ContactInputView;

    open spec fn view(&self) -> ContactInputView {
        ContactInputView {
            full_name: self.full_name@,
            first_name: opt_chars(self.first_name),
            last_name: opt_chars(self.last_name),
            emails: string_views(self.emails@),
            phones: string_views(self.phones@),
            org: opt_chars(self.org),
            note: opt_chars(self.note),
        }
    }
}

pub open spec fn non_empty(s: Seq<char>) -> Option<Seq<char>> {
    if s.len() > 0 {
        Some(s)
    } else {
        None
    }
}

/// The family name of an N value (Family;Given;Additional;Prefix;Suffix).
pub open spec fn family_name(n: Seq<char>) -> Option<Seq<char>> {
    non_empty(take_until(n, ';'))
}

/// The given name of an N value (Family;Given;Additional;Prefix;Suffix).
pub open spec fn given_name(n: Seq<char>) -> Option<Seq<char>> {
    let k = take_until(n, ';').len();
    if k < n.len() {
        non_empty(take_until(n.skip(k + 1 as int), ';'))
    } else {
        None
    }
}

/// The contact that the properties `props` describe, stored under `uid`.
pub open spec fn contact_spec(uid: Seq<char>, props: Seq<PropertyView>) -> ContactView {
    ContactView {
        uid: uid,
        full_name: match lookup(props, "FN"@) {
            Some(p) => p.value,
            None => uid,
        },
        first_name: match lookup(props, "N"@) {
            Some(p) => given_name(p.value),
            None => None,
        },
        last_name: match lookup(props, "N"@) {
            Some(p) => family_name(p.value),
            None => None,
        },
        emails: values(named(props, "EMAIL"@)),
        phones: values(named(props, "TEL"@)),
        org: match lookup(props, "ORG"@) {
            Some(p) => Some(p.value),
            None => None,
        },
        note: match lookup(props, "NOTE"@) {
            Some(p) => Some(p.value),
            None => None,
        },
    }
}

fn non_empty_string(cs: &[char]) -> (r: Option<String>)
    ensures
        opt_chars(r) == non_empty(cs@),
{
    if cs.len() > 0 {
        Some(string_of(cs))
    } else {
        None
    }
}

fn value_of(p: Option<&Property>) -> (r: Option<String>)
    ensures
        opt_chars(r) == (match p {
            Some(q) => Some(q.value@),
            None => None,
        }),
{
    match p {
        Some(q) => Some(q.value.clone()),
        None => None,
    }
}

fn values_of(ps: &Vec<&Property>) -> (r: Vec<String>)
    ensures
        string_views(r@) == values(ps@.map_values(|p: &Property| p@)),
{
    let ghost pv = ps@.map_values(|p: &Property| p@);
    let mut r: Vec<String> = Vec::new();
    let mut i: usize = 0;
    while i < ps.len()
        invariant
            i <= ps@.len(),
            pv == ps@.map_values(|p: &Property| p@),
            string_views(r@) == values(pv.take(i as int)),
        decreases ps@.len() - i,
    {
        let ghost before = r@;
        r.push(ps[i].value.clone());
        assert(string_views(r@) =~= string_views(before).push(ps@[i as int].value@));
        assert(values(pv.take(i + 1)) =~= values(pv.take(i as int)).push(pv[i as int].value));
        i += 1;
    }
    assert(pv.take(ps@.len() as int) =~= pv);
    r
}

/// The contact that the vCard `v` describes, stored under `uid`.
pub fn contact_from_vcard(uid: &str, v: &Vcard) -> (c: Contact)
    ensures
        c@ == contact_spec(uid@, v@),
{
    let full_name = match v.get("FN") {
        Some(p) => p.value.clone(),
        None => String::from_str(uid),
    };
    let (first_name, last_name) = match v.get("N") {
        Some(p) => {
            // N is Family;Given;Additional;Prefix;Suffix
            let n = chars_of(p.value.as_str());
            let last = non_empty_string(&take_until_chars(&n, ';'));
            let k = first_index_of(&n, ';');
            let first = if k < n.len() {
                let len = n.len();
                let rest = slice_chars(&n, k + 1, len);
                assert(rest@ =~= n@.skip(k + 1));
                non_empty_string(&take_until_chars(&rest, ';'))
            } else {
                None
            };
            (first, last)
        },
        None => (None, None),
    };
    let emails = values_of(&v.get_all("EMAIL"));
    let phones = values_of(&v.get_all("TEL"));
    let org = value_of(v.get("ORG"));
    let note = value_of(v.get("NOTE"));
    Contact {
        uid: String::from_str(uid),
        full_name,
        first_name,
        last_name,
        emails,
        phones,
        org,
        note,
    }
}

// ---------------------------------------------------------------------
// Serialization
// ---------------------------------------------------------------------

/// Lines, each terminated by CRLF, as one text.
pub open spec fn crlf_text(lines: Seq<Seq<char>>) -> Seq<char>
    decreases lines.len(),
{
    if lines.len() == 0 {
        Seq::empty()
    } else {
        crlf_text(lines.drop_last()) + lines.last() + "\r\n"@
    }
}

pub open spec fn unwrap_or_empty(o: Option<Seq<char>>) -> Seq<char> {
    match o {
        Some(s) => s,
        None => Seq::empty(),
    }
}

/// One line per value: `prefix` followed by the escaped value.
pub open spec fn prefixed_lines(prefix: Seq<char>, vals: Seq<Seq<char>>) -> Seq<Seq<char>> {
    vals.map_values(|v: Seq<char>| prefix + escape(v))
}

/// The line for an optional field: none when it is absent or empty.
pub open spec fn optional_line(prefix: Seq<char>, o: Option<Seq<char>>) -> Seq<Seq<char>> {
    if unwrap_or_empty(o).len() > 0 {
        seq![prefix + escape(unwrap_or_empty(o))]
    } else {
        Seq::empty()
    }
}

/// The N line: present when either name part is non-empty.
pub open spec fn name_line(first: Option<Seq<char>>, last: Option<Seq<char>>) -> Seq<Seq<char>> {
    let l = unwrap_or_empty(last);
    let f = unwrap_or_empty(first);
    if l.len() > 0 || f.len() > 0 {
        seq!["N:"@ + escape(l) + ";"@ + escape(f) + ";;;"@]
    } else {
        Seq::empty()
    }
}

/// The lines of the vCard written for `input` under `uid`.
pub open spec fn vcard_lines(uid: Seq<char>, input: ContactInputView) -> Seq<Seq<char>> {
    seq!["BEGIN:VCARD"@, "VERSION:3.0"@, "UID:"@ + escape(uid), "FN:"@ + escape(input.full_name)]
        + name_line(input.first_name, input.last_name) + prefixed_lines(
        "EMAIL;TYPE=INTERNET:"@,
        input.emails,
    ) + prefixed_lines("TEL;TYPE=CELL:"@, input.phones) + optional_line("ORG:"@, input.org)
        + optional_line("NOTE:"@, input.note) + seq!["END:VCARD"@]
}

/// The vCard 3.0 text written for `input` under `uid`.
pub open spec fn vcard_text(uid: Seq<char>, input: ContactInputView) -> Seq<char> {
    crlf_text(vcard_lines(uid, input))
}

fn push_line(out: &mut String, line: &str, Ghost(lines): Ghost<Seq<Seq<char>>>)
    requires
        old(out)@ == crlf_text(lines),
    ensures
        final(out)@ == crlf_text(lines.push(line@)),
{
    out.append(line);
    out.append("\r\n");
    assert(lines.push(line@).drop_last() =~= lines);
}

/// `prefix` followed by the escaped `value`.
fn escaped_line(prefix: &str, value: &str) -> (l: String)
    ensures
        l@ == prefix@ + escape(value@),
{
    let mut l = String::from_str(prefix);
    l.append(escape_value(value).as_str());
    l
}

fn push_value_lines(
    out: &mut String,
    prefix: &str,
    vals: &Vec<String>,
    Ghost(lines): Ghost<Seq<Seq<char>>>,
)
    requires
        old(out)@ == crlf_text(lines),
    ensures
        final(out)@ == crlf_text(lines + prefixed_lines(prefix@, string_views(vals@))),
{
    let ghost vs = string_views(vals@);
    let mut i: usize = 0;
    assert(lines + prefixed_lines(prefix@, vs.take(0)) =~= lines);
    while i < vals.len()
        invariant
            i <= vals@.len(),
            vs == string_views(vals@),
            out@ == crlf_text(lines + prefixed_lines(prefix@, vs.take(i as int))),
        decreases vals@.len() - i,
    {
        let l = escaped_line(prefix, vals[i].as_str());
        push_line(out, l.as_str(), Ghost(lines + prefixed_lines(prefix@, vs.take(i as int))));
        assert(lines + prefixed_lines(prefix@, vs.take(i + 1)) =~= (lines + prefixed_lines(
            prefix@,
            vs.take(i as int),
        )).push(l@));
        i += 1;
    }
    assert(vs.take(vals@.len() as int) =~= vs);
}

fn push_optional_line(
    out: &mut String,
    prefix: &str,
    val: &Option<String>,
    Ghost(lines): Ghost<Seq<Seq<char>>>,
)
    requires
        old(out)@ == crlf_text(lines),
    ensures
        final(out)@ == crlf_text(lines + optional_line(prefix@, opt_chars(*val))),
{
    if let Some(v) = val {
        if !v.as_str().is_empty() {
            let l = escaped_line(prefix, v.as_str());
            push_line(out, l.as_str(), Ghost(lines));
            assert(lines + optional_line(prefix@, opt_chars(*val)) =~= lines.push(l@));
            return ;
        }
    }
    assert(lines + optional_line(prefix@, opt_chars(*val)) =~= lines);
}

fn string_or_empty(o: &Option<String>) -> (s: String)
    ensures
        s@ == unwrap_or_empty(opt_chars(*o)),
{
    match o {
        Some(v) => v.clone(),
        None => String::new(),
    }
}

/// Writes the vCard 3.0 text for `input`, stored under `uid`.
pub fn vcard_from_input(uid: &str, input: &ContactInput) -> (text: String)
    ensures
        text@ == vcard_text(uid@, input@),
{
    let ghost e = Seq::<Seq<char>>::empty();
    let mut out = String::new();
    push_line(&mut out, "BEGIN:VCARD", Ghost(e));
    push_line(&mut out, "VERSION:3.0", Ghost(e.push("BEGIN:VCARD"@)));
    let uid_line = escaped_line("UID:", uid);
    push_line(&mut out, uid_line.as_str(), Ghost(e.push("BEGIN:VCARD"@).push("VERSION:3.0"@)));
    let fn_line = escaped_line("FN:", input.full_name.as_str());
    let ghost head = e.push("BEGIN:VCARD"@).push("VERSION:3.0"@).push(uid_line@);
    push_line(&mut out, fn_line.as_str(), Ghost(head));
    let ghost head = head.push(fn_line@);
    assert(head =~= seq![
        "BEGIN:VCARD"@,
        "VERSION:3.0"@,
        "UID:"@ + escape(uid@),
        "FN:"@ + escape(input.full_name@),
    ]);

    let last = string_or_empty(&input.last_name);
    let first = string_or_empty(&input.first_name);
    let ghost with_name = head + name_line(opt_chars(input.first_name), opt_chars(input.last_name));
    if !last.as_str().is_empty() || !first.as_str().is_empty() {
        let mut l = escaped_line("N:", last.as_str());
        l.append(";");
        l.append(escape_value(first.as_str()).as_str());
        l.append(";;;");
        push_line(&mut out, l.as_str(), Ghost(head));
        assert(with_name =~= head.push(l@));
    } else {
        assert(with_name =~= head);
    }
    push_value_lines(&mut out, "EMAIL;TYPE=INTERNET:", &input.emails, Ghost(with_name));
    let ghost with_emails = with_name + prefixed_lines(
        "EMAIL;TYPE=INTERNET:"@,
        string_views(input.emails@),
    );
    push_value_lines(&mut out, "TEL;TYPE=CELL:", &input.phones, Ghost(with_emails));
    let ghost with_phones = with_emails + prefixed_lines(
        "TEL;TYPE=CELL:"@,
        string_views(input.phones@),
    );
    push_optional_line(&mut out, "ORG:", &input.org, Ghost(with_phones));
    let ghost with_org = with_phones + optional_line("ORG:"@, opt_chars(input.org));
    push_optional_line(&mut out, "NOTE:", &input.note, Ghost(with_org));
    let ghost with_note = with_org + optional_line("NOTE:"@, opt_chars(input.note));
    push_line(&mut out, "END:VCARD", Ghost(with_note));
    assert(with_note.push("END:VCARD"@) =~= vcard_lines(uid@, input@));
    out
}

} // verus!
