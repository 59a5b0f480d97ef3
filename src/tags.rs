//! Tag entries and the parser for line-oriented, tab-separated tag sources.
use vstd::prelude::*;
use crate::text::{chars_of, split_chars, split_on, text_of};

verus! {

/// Where in its file a definition stands.
#[derive(Clone, Debug)]
pub enum Addressing {
    /// A 1-based line number.
    Line(u32),
    /// A search pattern, without the `;"` that ended it.
    Pattern(String),
}

pub enum AddressingModel {
    Line(u32),
    Pattern(Seq<char>),
}

impl View for Addressing {
    type V = AddressingModel;

    open spec fn view(&self) -> AddressingModel {
        match self {
            Addressing::Line(n) => AddressingModel::Line(*n),
            Addressing::Pattern(p) => AddressingModel::Pattern(p@),
        }
    }
}

/// One definition read from a tag source.
#[derive(Clone, Debug)]
pub struct TagEntry {
    pub name: String,
    pub file: String,
    pub address: Addressing,
    pub kind: String,
    pub scope: Option<String>,
}

pub struct TagEntryModel {
    pub name: Seq<char>,
    pub file: Seq<char>,
    pub address: AddressingModel,
    pub kind: Seq<char>,
    pub scope: Option<Seq<char>>,
}

pub open spec fn opt_view(s: Option<String>) -> Option<Seq<char>> {
    match s {
        Some(t) => Some(t@),
        None => None,
    }
}

impl View for TagEntry {
    type V = TagEntryModel;

    open spec fn view(&self) -> TagEntryModel {
        TagEntryModel {
            name: self.name@,
            file: self.file@,
            address: self.address@,
            kind: self.kind@,
            scope: opt_view(self.scope),
        }
    }
}

/// The models of a sequence of entries.
pub open spec fn models(v: Seq<TagEntry>) -> Seq<TagEntryModel> {
    v.map_values(|e: TagEntry| e@)
}

impl TagEntry {
    /// A copy of this entry.
    pub fn duplicate(&self) -> (r: TagEntry)
        ensures
            r@ == self@,
    {
        let address = match &self.address {
            Addressing::Line(n) => Addressing::Line(*n),
            Addressing::Pattern(p) => Addressing::Pattern(p.clone()),
        };
        let scope = match &self.scope {
            Some(s) => Some(s.clone()),
            None => None,
        };
        TagEntry {
            name: self.name.clone(),
            file: self.file.clone(),
            address,
            kind: self.kind.clone(),
            scope,
        }
    }
}

pub open spec fn is_digit(c: char) -> bool {
    '0' <= c && c <= '9'
}

pub open spec fn all_digits(s: Seq<char>) -> bool {
    s.len() > 0 && forall|i: int| 0 <= i < s.len() ==> is_digit(#[trigger] s[i])
}

/// The number that the decimal digits `s` write.
pub open spec fn digits_value(s: Seq<char>) -> nat
    decreases s.len(),
{
    if s.len() == 0 {
        0
    } else {
        (digits_value(s.drop_last()) * 10 + ((s.last() as int) - ('0' as int))) as nat
    }
}

/// Whether `s` ends with the `;"` that closes an address.
pub open spec fn closes_address(s: Seq<char>) -> bool {
    s.len() >= 2 && s[s.len() - 2] == ';' && s[s.len() - 1] == '"'
}

/// The address field, read as a 1-based line number or as a search pattern
/// closed by `;"`.
pub open spec fn address_of(a: Seq<char>) -> Option<AddressingModel> {
    let closed = closes_address(a);
    let body = if closed { a.subrange(0, a.len() - 2) } else { a };
    if all_digits(body) {
        let v = digits_value(body);
        if 1 <= v <= u32::MAX {
            Some(AddressingModel::Line(v as u32))
        } else {
            None
        }
    } else if closed && body.len() > 0 {
        Some(AddressingModel::Pattern(body))
    } else {
        None
    }
}

fn is_digit_char(c: char) -> (r: bool)
    ensures
        r == is_digit(c),
{
    '0' <= c && c <= '9'
}

fn digit_value(c: char) -> (r: u64)
    requires
        is_digit(c),
    ensures
        r == (c as int) - ('0' as int),
{
    (c as u32 - '0' as u32) as u64
}

proof fn lemma_digits_grow(s: Seq<char>, i: int)
    requires
        0 <= i <= s.len(),
        forall|k: int| 0 <= k < s.len() ==> is_digit(#[trigger] s[k]),
    ensures
        digits_value(s.subrange(0, i)) <= digits_value(s),
    decreases s.len(),
{
    if i < s.len() {
        let p = s.drop_last();
        assert forall|k: int| 0 <= k < p.len() implies is_digit(#[trigger] p[k]) by {
            assert(p[k] == s[k]);
        }
        lemma_digits_grow(p, i);
        assert(p.subrange(0, i) =~= s.subrange(0, i));
    } else {
        assert(s.subrange(0, i) =~= s);
    }
}

/// Reads an address field; see `address_of`.
pub fn parse_address(a: &Vec<char>) -> (r: Option<Addressing>)
    ensures
        match address_of(a@) {
            Some(m) => r is Some && r->Some_0@ == m,
            None => r is None,
        },
{
    let n = a.len();
    let closed = n >= 2 && a[n - 2] == ';' && a[n - 1] == '"';
    let body_len: usize = if closed { n - 2 } else { n };
    let ghost body = if closed { a@.subrange(0, n - 2) } else { a@ };
    let mut digits = body_len > 0;
    let mut k: usize = 0;
    while k < body_len
        invariant
            body_len == body.len(),
            body_len <= a@.len(),
            forall|j: int| 0 <= j < body_len ==> body[j] == a@[j],
            k <= body_len,
            digits == (body_len > 0 && forall|j: int| 0 <= j < k ==> is_digit(#[trigger] body[j])),
        decreases body_len - k,
    {
        assert(body[k as int] == a@[k as int]);
        if !is_digit_char(a[k]) {
            digits = false;
        }
        k = k + 1;
    }
    if digits {
        let mut value: u64 = 0;
        let mut k: usize = 0;
        while k < body_len
            invariant
                body_len == body.len(),
                body_len <= a@.len(),
                forall|j: int| 0 <= j < body_len ==> body[j] == a@[j],
                all_digits(body),
                closed == closes_address(a@),
                body == (if closed { a@.subrange(0, a@.len() - 2) } else { a@ }),
                k <= body_len,
                value == digits_value(body.subrange(0, k as int)),
                value <= u32::MAX,
            decreases body_len - k,
        {
            assert(body[k as int] == a@[k as int]);
            assert(is_digit(body[k as int]));
            let d = digit_value(a[k]);
            let ghost q = body.subrange(0, k + 1);
            proof {
                assert(q.drop_last() =~= body.subrange(0, k as int));
                assert(q.last() == a@[k as int]);
            }
            value = value * 10 + d;
            assert(value == digits_value(q));
            k = k + 1;
            if value > 4294967295 {
                proof {
                    lemma_digits_grow(body, k as int);
                    assert(closed == closes_address(a@));
                    assert(digits_value(body) > u32::MAX);
                }
                return None;
            }
        }
        proof {
            assert(body.subrange(0, body_len as int) =~= body);
        }
        if value >= 1 {
            Some(Addressing::Line(value as u32))
        } else {
            None
        }
    } else if closed && body_len > 0 {
        let p = text_of(&a.as_slice()[0..body_len]);
        Some(Addressing::Pattern(p))
    } else {
        None
    }
}

/// What one line of a tag source is.
pub enum TagLine {
    Blank,
    Comment,
    Entry(TagEntry),
    Malformed,
}

pub enum LineModel {
    Blank,
    Comment,
    Entry(TagEntryModel),
    Malformed,
}

impl View for TagLine {
    type V = LineModel;

    open spec fn view(&self) -> LineModel {
        match self {
            TagLine::Blank => LineModel::Blank,
            TagLine::Comment => LineModel::Comment,
            TagLine::Entry(e) => LineModel::Entry(e@),
            TagLine::Malformed => LineModel::Malformed,
        }
    }
}

/// `line` without the carriage return that may end it.
pub open spec fn strip_cr(line: Seq<char>) -> Seq<char> {
    if line.len() > 0 && line.last() == '\r' {
        line.drop_last()
    } else {
        line
    }
}

pub open spec fn has_scope_prefix(f: Seq<char>) -> bool {
    f.len() >= 6 && f.subrange(0, 6) == seq!['s', 'c', 'o', 'p', 'e', ':']
}

/// The value of the first `scope:` field among `fields`.
pub open spec fn scope_in(fields: Seq<Seq<char>>) -> Option<Seq<char>>
    decreases fields.len(),
{
    if fields.len() == 0 {
        None
    } else if has_scope_prefix(fields[0]) {
        Some(fields[0].subrange(6, fields[0].len() as int))
    } else {
        scope_in(fields.drop_first())
    }
}

/// How a line of a tag source reads: blank, a comment (starting with `!`),
/// an entry (name, file, address and kind, each non-empty, then optional
/// extension fields), or malformed.
pub open spec fn line_model(line: Seq<char>) -> LineModel {
    let l = strip_cr(line);
    if l.len() == 0 {
        LineModel::Blank
    } else if l[0] == '!' {
        LineModel::Comment
    } else {
        let f = split_on(l, '\t');
        if f.len() >= 4 && f[0].len() > 0 && f[1].len() > 0 && address_of(f[2]) is Some
            && f[3].len() > 0 {
            LineModel::Entry(
                TagEntryModel {
                    name: f[0],
                    file: f[1],
                    address: address_of(f[2])->Some_0,
                    kind: f[3],
                    scope: scope_in(f.subrange(4, f.len() as int)),
                },
            )
        } else {
            LineModel::Malformed
        }
    }
}

fn prefix_of(v: &Vec<char>, n: usize) -> (r: Vec<char>)
    requires
        n <= v@.len(),
    ensures
        r@ == v@.subrange(0, n as int),
{
    let mut out: Vec<char> = Vec::new();
    let mut k: usize = 0;
    while k < n
        invariant
            k <= n <= v@.len(),
            out@ == v@.subrange(0, k as int),
        decreases n - k,
    {
        out.push(v[k]);
        k = k + 1;
        assert(out@ =~= v@.subrange(0, k as int));
    }
    out
}

fn scope_field(fields: &Vec<Vec<char>>, from: usize) -> (r: Option<String>)
    requires
        from <= fields@.len(),
    ensures
        opt_view(r) == scope_in(fields@.map_values(|f: Vec<char>| f@).subrange(from as int, fields@.len() as int)),
{
    let ghost all = fields@.map_values(|f: Vec<char>| f@);
    let mut i: usize = from;
    while i < fields.len()
        invariant
            from <= i <= fields@.len(),
            all == fields@.map_values(|f: Vec<char>| f@),
            scope_in(all.subrange(from as int, all.len() as int)) == scope_in(
                all.subrange(i as int, all.len() as int),
            ),
        decreases fields@.len() - i,
    {
        let f = &fields[i];
        let ghost rest = all.subrange(i as int, all.len() as int);
        assert(rest[0] == f@);
        assert(rest.drop_first() =~= all.subrange(i + 1, all.len() as int));
        if f.len() >= 6 && f[0] == 's' && f[1] == 'c' && f[2] == 'o' && f[3] == 'p' && f[4] == 'e'
            && f[5] == ':' {
            assert(f@.subrange(0, 6) =~= seq!['s', 'c', 'o', 'p', 'e', ':']);
            let mut value: Vec<char> = Vec::new();
            let mut k: usize = 6;
            while k < f.len()
                invariant
                    6 <= k <= f@.len(),
                    value@ == f@.subrange(6, k as int),
                decreases f@.len() - k,
            {
                value.push(f[k]);
                k = k + 1;
                assert(value@ =~= f@.subrange(6, k as int));
            }
            return Some(text_of(value.as_slice()));
        }
        i = i + 1;
    }
    assert(all.subrange(i as int, all.len() as int) =~= Seq::<Seq<char>>::empty());
    None
}

/// Reads one line of a tag source; see `line_model`.
pub fn classify_line(line: &Vec<char>) -> (r: TagLine)
    ensures
        r@ == line_model(line@),
{
    let n = line.len();
    let l = if n > 0 && line[n - 1] == '\r' {
        prefix_of(line, n - 1)
    } else {
        prefix_of(line, n)
    };
    proof {
        assert(line@.subrange(0, n as int) =~= line@);
        assert(line@.subrange(0, n - 1) =~= line@.drop_last());
    }
    if l.len() == 0 {
        return TagLine::Blank;
    }
    if l[0] == '!' {
        return TagLine::Comment;
    }
    let f = split_chars(&l, '\t');
    let ghost sf = split_on(l@, '\t');
    if f.len() >= 4 && f[0].len() > 0 && f[1].len() > 0 && f[3].len() > 0 {
        assert(f@[0]@ == sf[0] && f@[1]@ == sf[1] && f@[2]@ == sf[2] && f@[3]@ == sf[3]);
        match parse_address(&f[2]) {
            Some(address) => {
                let scope = scope_field(&f, 4);
                assert(f@.map_values(|v: Vec<char>| v@).subrange(4, f@.len() as int) =~= sf.subrange(4, sf.len() as int));
                TagLine::Entry(
                    TagEntry {
                        name: text_of(f[0].as_slice()),
                        file: text_of(f[1].as_slice()),
                        address,
                        kind: text_of(f[3].as_slice()),
                        scope,
                    },
                )
            },
            None => TagLine::Malformed,
        }
    } else {
        proof {
            if f@.len() >= 4 {
                assert(f@[0]@ == sf[0] && f@[1]@ == sf[1] && f@[3]@ == sf[3]);
            }
        }
        TagLine::Malformed
    }
}

/// Reads one line of a tag source; see `line_model`.
pub fn parse_tag_line(line: &str) -> (r: TagLine)
    ensures
        r@ == line_model(line@),
{
    let cs = chars_of(line);
    classify_line(&cs)
}

} // verus!
