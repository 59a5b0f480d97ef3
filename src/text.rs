//! Character-level helpers: strings as character sequences, splitting on a
//! separator, and identifier scanning.
use vstd::prelude::*;
use vstd::std_specs::iter::IteratorSpec;

verus! {

/// The characters of `s`, in order.
pub fn chars_of(s: &str) -> (r: Vec<char>)
    ensures
        r@ == s@,
{
    let mut out: Vec<char> = Vec::new();
    let mut it = s.chars();
    loop
        invariant
            out@ + it.remaining() == s@,
            it.obeys_prophetic_iter_laws(),
            it.decrease() is Some,
        ensures
            out@ == s@,
        decreases it.decrease()->0,
    {
        match it.next() {
            Some(c) => out.push(c),
            None => {
                assert(out@ + it.remaining() =~= out@);
                break;
            },
        }
    }
    out
}

/// Relies on `String::from_iter` over characters: the string holds exactly
/// the given characters, in order.
#[verifier::external_body]
pub(crate) fn text_of(cs: &[char]) -> (r: String)
    ensures
        r@ == cs@,
{
    String::from_iter(cs)
}

/// The pieces of `s` between occurrences of `sep`; there is always one more
/// piece than there are separators.
pub open spec fn split_on(s: Seq<char>, sep: char) -> Seq<Seq<char>>
    decreases s.len(),
{
    if s.len() == 0 {
        seq![Seq::<char>::empty()]
    } else {
        let pre = split_on(s.drop_last(), sep);
        if s.last() == sep {
            pre.push(Seq::<char>::empty())
        } else {
            pre.update(pre.len() - 1, pre.last().push(s.last()))
        }
    }
}

proof fn lemma_split_nonempty(s: Seq<char>, sep: char)
    ensures
        split_on(s, sep).len() >= 1,
    decreases s.len(),
{
    if s.len() > 0 {
        lemma_split_nonempty(s.drop_last(), sep);
    }
}

/// Splits `s` at every `sep`, keeping empty pieces.
pub fn split_chars(s: &Vec<char>, sep: char) -> (r: Vec<Vec<char>>)
    ensures
        r@.len() == split_on(s@, sep).len(),
        forall|j: int| 0 <= j < r@.len() ==> #[trigger] r@[j]@ == split_on(s@, sep)[j],
{
    let mut parts: Vec<Vec<char>> = Vec::new();
    let mut cur: Vec<char> = Vec::new();
    let mut i: usize = 0;
    proof {
        assert(s@.subrange(0, 0) =~= Seq::<char>::empty());
    }
    while i < s.len()
        invariant
            i <= s@.len(),
            parts@.len() + 1 == split_on(s@.subrange(0, i as int), sep).len(),
            forall|j: int|
                0 <= j < parts@.len() ==> #[trigger] parts@[j]@ == split_on(
                    s@.subrange(0, i as int),
                    sep,
                )[j],
            cur@ == split_on(s@.subrange(0, i as int), sep).last(),
        decreases s@.len() - i,
    {
        let c = s[i];
        proof {
            let p = s@.subrange(0, i as int);
            let q = s@.subrange(0, i + 1);
            assert(q.drop_last() =~= p);
            assert(q.last() == c);
            lemma_split_nonempty(p, sep);
        }
        if c == sep {
            let done = cur;
            parts.push(done);
            cur = Vec::new();
        } else {
            cur.push(c);
        }
        i = i + 1;
    }
    proof {
        assert(s@.subrange(0, s@.len() as int) =~= s@);
    }
    parts.push(cur);
    parts
}

/// Identifier constituents: ASCII letters, ASCII digits and the underscore.
pub open spec fn is_ident_char(c: char) -> bool {
    ('a' <= c && c <= 'z') || ('A' <= c && c <= 'Z') || ('0' <= c && c <= '9') || c == '_'
}

/// Whether `c` is an identifier constituent.
pub fn ident_char(c: char) -> (r: bool)
    ensures
        r == is_ident_char(c),
{
    ('a' <= c && c <= 'z') || ('A' <= c && c <= 'Z') || ('0' <= c && c <= '9') || c == '_'
}

/// Where the run of identifier constituents that ends just before `i` starts.
pub open spec fn word_start(line: Seq<char>, i: int) -> int
    decreases i,
{
    if 0 < i <= line.len() && is_ident_char(line[i - 1]) {
        word_start(line, i - 1)
    } else {
        i
    }
}

/// Where the run of identifier constituents that starts at `i` ends.
pub open spec fn word_end(line: Seq<char>, i: int) -> int
    decreases line.len() - i,
{
    if 0 <= i < line.len() && is_ident_char(line[i]) {
        word_end(line, i + 1)
    } else {
        i
    }
}

/// The identifier under offset `at`, if the character there is an identifier
/// constituent: the longest run of constituents around it.
pub open spec fn word_at(line: Seq<char>, at: int) -> Option<Seq<char>> {
    if 0 <= at < line.len() && is_ident_char(line[at]) {
        Some(line.subrange(word_start(line, at), word_end(line, at)))
    } else {
        None
    }
}

/// The identifier under character offset `at` of `line`, or `None` where the
/// offset is past the end or not on an identifier constituent.
pub fn identifier_at(line: &Vec<char>, at: usize) -> (r: Option<Vec<char>>)
    ensures
        match word_at(line@, at as int) {
            Some(w) => r is Some && r->Some_0@ == w,
            None => r is None,
        },
{
    if at >= line.len() || !ident_char(line[at]) {
        return None;
    }
    let mut start: usize = at;
    while start > 0 && ident_char(line[start - 1])
        invariant
            start <= at < line@.len(),
            word_start(line@, start as int) == word_start(line@, at as int),
        decreases start,
    {
        start = start - 1;
    }
    let mut end: usize = at;
    while end < line.len() && ident_char(line[end])
        invariant
            at <= end <= line@.len(),
            word_end(line@, end as int) == word_end(line@, at as int),
        decreases line@.len() - end,
    {
        end = end + 1;
    }
    let mut word: Vec<char> = Vec::new();
    let mut k: usize = start;
    while k < end
        invariant
            start <= k <= end <= line@.len(),
            word@ == line@.subrange(start as int, k as int),
        decreases end - k,
    {
        word.push(line[k]);
        k = k + 1;
        proof {
            assert(word@ =~= line@.subrange(start as int, k as int));
        }
    }
    Some(word)
}

/// Whether `s` holds exactly the characters of `lit`.
pub fn same_text(s: &Vec<char>, lit: &str) -> (r: bool)
    ensures
        r == (s@ == lit@),
{
    let t = chars_of(lit);
    if s.len() != t.len() {
        return false;
    }
    let mut i: usize = 0;
    while i < s.len()
        invariant
            s@.len() == t@.len(),
            t@ == lit@,
            i <= s@.len(),
            forall|j: int| 0 <= j < i ==> s@[j] == t@[j],
        decreases s@.len() - i,
    {
        if s[i] != t[i] {
            return false;
        }
        i = i + 1;
    }
    assert(s@ =~= t@);
    true
}

/// How many UTF-16 code units `s` takes: two for a character outside the
/// basic multilingual plane, one for any other.
pub open spec fn utf16_len(s: Seq<char>) -> nat
    decreases s.len(),
{
    if s.len() == 0 {
        0
    } else {
        utf16_len(s.drop_last()) + if (s.last() as u32) >= 0x10000 {
            2nat
        } else {
            1nat
        }
    }
}

/// The character offset in `line` of the UTF-16 offset `units`: the number
/// of whole characters that end at or before it.
pub fn char_offset(line: &Vec<char>, units: u32) -> (r: usize)
    ensures
        r <= line@.len(),
        r <= units,
        utf16_len(line@.subrange(0, r as int)) <= units,
        r < line@.len() ==> utf16_len(line@.subrange(0, r + 1)) > units,
{
    let mut i: usize = 0;
    let mut acc: u64 = 0;
    assert(line@.subrange(0, 0) =~= Seq::<char>::empty());
    while i < line.len()
        invariant
            i <= line@.len(),
            acc == utf16_len(line@.subrange(0, i as int)),
            i <= acc <= units,
        ensures
            i <= line@.len(),
            acc == utf16_len(line@.subrange(0, i as int)),
            i <= acc <= units,
            i < line@.len() ==> utf16_len(line@.subrange(0, i + 1)) > units,
        decreases line@.len() - i,
    {
        let ghost q = line@.subrange(0, i + 1);
        assert(q.drop_last() =~= line@.subrange(0, i as int));
        assert(q.last() == line@[i as int]);
        let w: u64 = if line[i] as u32 >= 0x10000 {
            2
        } else {
            1
        };
        if acc + w > units as u64 {
            break;
        }
        acc = acc + w;
        i = i + 1;
    }
    i
}

} // verus!
