//! Workspace index snapshots: built once from tag sources, then only read.
use std::collections::HashMap;
use vstd::prelude::*;
use crate::tags::{classify_line, models, opt_view, line_model, LineModel, TagEntry, TagEntryModel, TagLine};
use crate::text::{chars_of, split_chars, split_on, text_of};

verus! {

broadcast use vstd::std_specs::hash::group_hash_axioms;

/// The entries that the lines hold, in order.
pub open spec fn entries_of(lines: Seq<Seq<char>>) -> Seq<TagEntryModel>
    decreases lines.len(),
{
    if lines.len() == 0 {
        Seq::empty()
    } else {
        let pre = entries_of(lines.drop_last());
        match line_model(lines.last()) {
            LineModel::Entry(e) => pre.push(e),
            _ => pre,
        }
    }
}

/// How many of the lines are malformed.
pub open spec fn malformed_in(lines: Seq<Seq<char>>) -> nat
    decreases lines.len(),
{
    if lines.len() == 0 {
        0
    } else {
        malformed_in(lines.drop_last()) + if line_model(lines.last()) is Malformed {
            1nat
        } else {
            0nat
        }
    }
}

/// The entries of a tag source's text, in order of its lines.
pub open spec fn source_entries(text: Seq<char>) -> Seq<TagEntryModel> {
    entries_of(split_on(text, '\n'))
}

/// How many lines of a tag source's text are malformed.
pub open spec fn source_malformed(text: Seq<char>) -> nat {
    malformed_in(split_on(text, '\n'))
}

/// What one tag source yielded.
pub struct ParsedSource {
    pub entries: Vec<TagEntry>,
    /// Lines that were skipped as malformed.
    pub malformed: usize,
}

/// Parses a whole tag source. Malformed lines are skipped and counted;
/// blank and comment lines are skipped.
pub fn parse_tag_source(text: &str) -> (r: ParsedSource)
    ensures
        models(r.entries@) == source_entries(text@),
        r.malformed == source_malformed(text@),
{
    let cs = chars_of(text);
    let lines = split_chars(&cs, '\n');
    let ghost ls = split_on(text@, '\n');
    let mut entries: Vec<TagEntry> = Vec::new();
    let mut malformed: usize = 0;
    let mut i: usize = 0;
    assert(ls.subrange(0, 0) =~= Seq::<Seq<char>>::empty());
    while i < lines.len()
        invariant
            ls == split_on(text@, '\n'),
            lines@.len() == ls.len(),
            forall|j: int| 0 <= j < lines@.len() ==> #[trigger] lines@[j]@ == ls[j],
            i <= lines@.len(),
            models(entries@) == entries_of(ls.subrange(0, i as int)),
            malformed == malformed_in(ls.subrange(0, i as int)),
            malformed <= i,
        decreases lines@.len() - i,
    {
        let ghost q = ls.subrange(0, i + 1);
        assert(q.drop_last() =~= ls.subrange(0, i as int));
        assert(q.last() == lines@[i as int]@);
        match classify_line(&lines[i]) {
            TagLine::Entry(e) => {
                let ghost before = entries@;
                let ghost m = e@;
                entries.push(e);
                assert(models(entries@) =~= models(before).push(m));
            },
            TagLine::Malformed => {
                malformed = malformed + 1;
            },
            _ => {},
        }
        i = i + 1;
    }
    assert(ls.subrange(0, ls.len() as int) =~= ls);
    ParsedSource { entries, malformed }
}

/// The location of a tag's file relative to the base of its source: kept
/// as it is with no base, a `file://` URI for an absolute path, and joined to
/// the base otherwise.
pub open spec fn joined(base: Seq<char>, f: Seq<char>) -> Seq<char> {
    if base.len() == 0 {
        f
    } else if f.len() > 0 && f[0] == '/' {
        "file://"@ + f
    } else if base.last() == '/' {
        base + f
    } else {
        base + seq!['/'] + f
    }
}

/// `e` with its file placed relative to `base`.
pub open spec fn rebased(e: TagEntryModel, base: Seq<char>) -> TagEntryModel {
    TagEntryModel {
        name: e.name,
        file: joined(base, e.file),
        address: e.address,
        kind: e.kind,
        scope: e.scope,
    }
}

/// A tag source: the text read from it, `None` where it could not be read,
/// and the base that its file paths are relative to.
pub struct TagSource {
    pub base: String,
    pub text: Option<String>,
}

pub struct SourceModel {
    pub base: Seq<char>,
    pub text: Option<Seq<char>>,
}

impl View for TagSource {
    type V = SourceModel;

    open spec fn view(&self) -> SourceModel {
        SourceModel { base: self.base@, text: opt_view(self.text) }
    }
}

/// The entries that one source contributes, with their files rebased.
pub open spec fn contributed(src: SourceModel) -> Seq<TagEntryModel> {
    match src.text {
        Some(t) => source_entries(t).map_values(|e: TagEntryModel| rebased(e, src.base)),
        None => Seq::empty(),
    }
}

/// The entries of all sources, source after source; a source that could not
/// be read counts as empty.
pub open spec fn sources_entries(sources: Seq<SourceModel>) -> Seq<TagEntryModel>
    decreases sources.len(),
{
    if sources.len() == 0 {
        Seq::empty()
    } else {
        sources_entries(sources.drop_last()) + contributed(sources.last())
    }
}

fn push_all(out: &mut Vec<char>, s: &Vec<char>)
    ensures
        final(out)@ == old(out)@ + s@,
{
    let mut k: usize = 0;
    while k < s.len()
        invariant
            k <= s@.len(),
            out@ == old(out)@ + s@.subrange(0, k as int),
        decreases s@.len() - k,
    {
        out.push(s[k]);
        k = k + 1;
        assert(out@ =~= old(out)@ + s@.subrange(0, k as int));
    }
    assert(s@.subrange(0, s@.len() as int) =~= s@);
}

/// Places the file path `f` relative to `base`; see `joined`.
pub fn join_path(base: &str, f: &str) -> (r: String)
    ensures
        r@ == joined(base@, f@),
{
    let b = chars_of(base);
    let p = chars_of(f);
    if b.len() == 0 {
        return text_of(p.as_slice());
    }
    let mut out: Vec<char> = Vec::new();
    if p.len() > 0 && p[0] == '/' {
        let scheme = chars_of("file://");
        push_all(&mut out, &scheme);
    } else {
        push_all(&mut out, &b);
        if b[b.len() - 1] != '/' {
            out.push('/');
        }
    }
    push_all(&mut out, &p);
    assert(out@ =~= joined(base@, f@));
    text_of(out.as_slice())
}

fn rebase(e: &TagEntry, base: &str) -> (r: TagEntry)
    ensures
        r@ == rebased(e@, base@),
{
    let c = e.duplicate();
    TagEntry {
        name: c.name,
        file: join_path(base, e.file.as_str()),
        address: c.address,
        kind: c.kind,
        scope: c.scope,
    }
}

/// The entries of `s` named exactly `n`, in order.
pub open spec fn named(s: Seq<TagEntryModel>, n: Seq<char>) -> Seq<TagEntryModel>
    decreases s.len(),
{
    if s.len() == 0 {
        Seq::empty()
    } else if s.last().name == n {
        named(s.drop_last(), n).push(s.last())
    } else {
        named(s.drop_last(), n)
    }
}

pub open spec fn source_models(sources: Seq<TagSource>) -> Seq<SourceModel> {
    sources.map_values(|s: TagSource| s@)
}

/// The bucket that a name hashes to.
pub open spec fn name_hash(s: Seq<char>) -> u64
    decreases s.len(),
{
    if s.len() == 0 {
        0
    } else {
        ((name_hash(s.drop_last()) as int * 31 + (s.last() as u32) as int) % 1000000007) as u64
    }
}

/// The positions in `s` of the entries whose names hash to `k`, in order.
pub open spec fn indices_with(s: Seq<TagEntryModel>, k: u64) -> Seq<int>
    decreases s.len(),
{
    if s.len() == 0 {
        Seq::empty()
    } else if name_hash(s.last().name) == k {
        indices_with(s.drop_last(), k).push(s.len() - 1)
    } else {
        indices_with(s.drop_last(), k)
    }
}

/// The entries at positions `idxs` of `s` that are named `n`, in the order
/// of `idxs`.
pub open spec fn pick(s: Seq<TagEntryModel>, idxs: Seq<int>, n: Seq<char>) -> Seq<TagEntryModel>
    decreases idxs.len(),
{
    if idxs.len() == 0 {
        Seq::empty()
    } else {
        let i = idxs.last();
        let pre = pick(s, idxs.drop_last(), n);
        if 0 <= i < s.len() && s[i].name == n {
            pre.push(s[i])
        } else {
            pre
        }
    }
}

proof fn lemma_indices_below(s: Seq<TagEntryModel>, k: u64)
    ensures
        forall|j: int|
            0 <= j < indices_with(s, k).len() ==> 0 <= #[trigger] indices_with(s, k)[j] < s.len(),
    decreases s.len(),
{
    if s.len() > 0 {
        let p = s.drop_last();
        lemma_indices_below(p, k);
        let ip = indices_with(p, k);
        assert forall|j: int| 0 <= j < indices_with(s, k).len() implies 0 <= #[trigger] indices_with(
            s,
            k,
        )[j] < s.len() by {
            if j < ip.len() {
                assert(indices_with(s, k)[j] == ip[j]);
            }
        }
    }
}

proof fn lemma_pick_extend(p: Seq<TagEntryModel>, e: TagEntryModel, idxs: Seq<int>, n: Seq<char>)
    requires
        forall|j: int| 0 <= j < idxs.len() ==> 0 <= #[trigger] idxs[j] < p.len(),
    ensures
        pick(p.push(e), idxs, n) == pick(p, idxs, n),
    decreases idxs.len(),
{
    if idxs.len() > 0 {
        let d = idxs.drop_last();
        assert forall|j: int| 0 <= j < d.len() implies 0 <= #[trigger] d[j] < p.len() by {
            assert(d[j] == idxs[j]);
        }
        lemma_pick_extend(p, e, d, n);
        assert(idxs.last() == idxs[idxs.len() - 1]);
    }
}

/// The entries named `n` are exactly those named `n` in the bucket of `n`.
proof fn lemma_bucket_lookup(s: Seq<TagEntryModel>, n: Seq<char>)
    ensures
        pick(s, indices_with(s, name_hash(n)), n) == named(s, n),
    decreases s.len(),
{
    if s.len() > 0 {
        let p = s.drop_last();
        let e = s.last();
        let k = name_hash(n);
        lemma_bucket_lookup(p, n);
        lemma_indices_below(p, k);
        lemma_pick_extend(p, e, indices_with(p, k), n);
        assert(p.push(e) =~= s);
        if name_hash(e.name) == k {
            let ip = indices_with(p, k);
            assert(indices_with(s, k).drop_last() == ip);
            assert(s[s.len() - 1] == e);
        }
    }
}

fn hash_of(s: &Vec<char>) -> (r: u64)
    ensures
        r == name_hash(s@),
{
    let mut h: u64 = 0;
    let mut i: usize = 0;
    assert(s@.subrange(0, 0) =~= Seq::<char>::empty());
    while i < s.len()
        invariant
            i <= s@.len(),
            h == name_hash(s@.subrange(0, i as int)),
            h < 1000000007,
        decreases s@.len() - i,
    {
        let ghost q = s@.subrange(0, i + 1);
        assert(q.drop_last() =~= s@.subrange(0, i as int));
        let c = s[i] as u32;
        proof {
            vstd::utf8::char_is_scalar(s[i as int]);
        }
        let t: u64 = h * 31 + c as u64;
        let next: u64 = t % 1000000007;
        assert(next < 1000000007) by (nonlinear_arith)
            requires
                next == t % 1000000007,
        ;
        assert(q.last() == s@[i as int]);
        h = next;
        i = i + 1;
    }
    assert(s@.subrange(0, s@.len() as int) =~= s@);
    h
}

/// An immutable symbol table: one snapshot of the workspace's definitions,
/// in the order the sources listed them, with the positions of its entries
/// kept in buckets by the hash of their names.
pub struct WorkspaceIndex {
    entries: Vec<TagEntry>,
    buckets: HashMap<u64, Vec<usize>>,
}

impl View for WorkspaceIndex {
    type V = Seq<TagEntryModel>;

    closed spec fn view(&self) -> Seq<TagEntryModel> {
        models(self.entries@)
    }
}

impl WorkspaceIndex {
    #[verifier::type_invariant]
    spec fn buckets_complete(&self) -> bool {
        forall|k: u64|
            if #[trigger] self.buckets@.contains_key(k) {
                self.buckets@[k]@.map_values(|x: usize| x as int) == indices_with(
                    models(self.entries@),
                    k,
                )
            } else {
                indices_with(models(self.entries@), k).len() == 0
            }
    }
}

/// A built index, with how many lines of each source were skipped as
/// malformed.
pub struct BuildReport {
    pub index: WorkspaceIndex,
    pub malformed: Vec<usize>,
}

impl WorkspaceIndex {
    /// An index with no entries.
    pub fn empty() -> (r: WorkspaceIndex)
        ensures
            r@ == Seq::<TagEntryModel>::empty(),
    {
        let entries: Vec<TagEntry> = Vec::new();
        let buckets: HashMap<u64, Vec<usize>> = HashMap::new();
        assert(models(entries@) =~= Seq::<TagEntryModel>::empty());
        WorkspaceIndex { entries, buckets }
    }

    fn add(self, e: TagEntry) -> (r: WorkspaceIndex)
        ensures
            r@ == self@.push(e@),
    {
        proof {
            use_type_invariant(&self);
        }
        let WorkspaceIndex { mut entries, mut buckets } = self;
        let h = hash_of(&chars_of(e.name.as_str()));
        let i = entries.len();
        let ghost before = models(entries@);
        let ghost m = e@;
        let ghost old_buckets = buckets@;
        let mut bucket = match buckets.remove(&h) {
            Some(b) => b,
            None => Vec::new(),
        };
        let ghost prior = bucket@;
        assert(prior.map_values(|x: usize| x as int) == indices_with(before, h)) by {
            if !old_buckets.contains_key(h) {
                assert(prior.map_values(|x: usize| x as int) =~= indices_with(before, h));
            }
        }
        bucket.push(i);
        assert(bucket@.map_values(|x: usize| x as int) =~= prior.map_values(|x: usize| x as int).push(
            i as int,
        ));
        entries.push(e);
        buckets.insert(h, bucket);
        proof {
            let after = models(entries@);
            assert(after =~= before.push(m));
            assert(after.drop_last() =~= before);
            assert(after.last() == m);
            assert forall|k: u64|
                if #[trigger] buckets@.contains_key(k) {
                    buckets@[k]@.map_values(|x: usize| x as int) == indices_with(after, k)
                } else {
                    indices_with(after, k).len() == 0
                } by {
                if k != h {
                    assert(buckets@.contains_key(k) == old_buckets.contains_key(k));
                    if old_buckets.contains_key(k) {
                        assert(buckets@[k] == old_buckets[k]);
                    }
                }
            }
        }
        WorkspaceIndex { entries, buckets }
    }

    /// An index of exactly these entries, in this order.
    pub fn from_entries(entries: Vec<TagEntry>) -> (r: WorkspaceIndex)
        ensures
            r@ == models(entries@),
    {
        let mut index = WorkspaceIndex::empty();
        let mut i: usize = 0;
        assert(models(entries@).subrange(0, 0) =~= Seq::<TagEntryModel>::empty());
        while i < entries.len()
            invariant
                i <= entries@.len(),
                index@ == models(entries@).subrange(0, i as int),
            decreases entries@.len() - i,
        {
            let e = entries[i].duplicate();
            index = index.add(e);
            i = i + 1;
            assert(models(entries@)[i - 1] == entries@[i - 1]@);
            assert(index@ =~= models(entries@).subrange(0, i as int));
        }
        assert(models(entries@).subrange(0, entries@.len() as int) =~= models(entries@));
        index
    }

    /// Builds an index from the tag sources, in order, each entry's file
    /// placed relative to its source's base. A source that could not be read
    /// adds nothing.
    pub fn build(sources: &Vec<TagSource>) -> (r: BuildReport)
        ensures
            r.index@ == sources_entries(source_models(sources@)),
            r.malformed@.len() == sources@.len(),
            forall|i: int|
                0 <= i < sources@.len() ==> #[trigger] r.malformed@[i] == match sources@[i].text {
                    Some(t) => source_malformed(t@),
                    None => 0,
                },
    {
        let ghost texts = source_models(sources@);
        let mut index = WorkspaceIndex::empty();
        let mut malformed: Vec<usize> = Vec::new();
        let mut i: usize = 0;
        assert(texts.subrange(0, 0) =~= Seq::<SourceModel>::empty());
        while i < sources.len()
            invariant
                texts == source_models(sources@),
                i <= sources@.len(),
                index@ == sources_entries(texts.subrange(0, i as int)),
                malformed@.len() == i,
                forall|j: int|
                    0 <= j < i ==> #[trigger] malformed@[j] == match sources@[j].text {
                        Some(t) => source_malformed(t@),
                        None => 0,
                    },
            decreases sources@.len() - i,
        {
            let ghost q = texts.subrange(0, i + 1);
            assert(q.drop_last() =~= texts.subrange(0, i as int));
            assert(q.last() == sources@[i as int]@);
            let base = sources[i].base.as_str();
            match &sources[i].text {
                Some(text) => {
                    let parsed = parse_tag_source(text.as_str());
                    let ghost before = index@;
                    let ghost added = models(parsed.entries@).map_values(
                        |e: TagEntryModel| rebased(e, base@),
                    );
                    let mut k: usize = 0;
                    while k < parsed.entries.len()
                        invariant
                            k <= parsed.entries@.len(),
                            added == models(parsed.entries@).map_values(
                                |e: TagEntryModel| rebased(e, base@),
                            ),
                            index@ == before + added.subrange(0, k as int),
                        decreases parsed.entries@.len() - k,
                    {
                        let ghost mid = index@;
                        let e = rebase(&parsed.entries[k], base);
                        let ghost m = e@;
                        index = index.add(e);
                        k = k + 1;
                        assert(index@ =~= mid.push(m));
                        assert(added.subrange(0, k as int) =~= added.subrange(0, k - 1).push(e@));
                    }
                    assert(added.subrange(0, k as int) =~= added);
                    malformed.push(parsed.malformed);
                },
                None => {
                    assert(index@ =~= index@ + Seq::<TagEntryModel>::empty());
                    malformed.push(0);
                },
            }
            i = i + 1;
        }
        assert(texts.subrange(0, sources@.len() as int) =~= texts);
        BuildReport { index, malformed }
    }

    /// How many entries the index holds.
    pub fn len(&self) -> (r: usize)
        ensures
            r == self@.len(),
    {
        self.entries.len()
    }

    /// The entries named exactly `name` (case-sensitive), in the order the
    /// sources listed them; empty when there are none. Only the entries whose
    /// names share the bucket of `name` are compared.
    pub fn lookup(&self, name: &str) -> (r: Vec<TagEntry>)
        ensures
            models(r@) == named(self@, name@),
    {
        proof {
            use_type_invariant(self);
            lemma_bucket_lookup(models(self.entries@), name@);
            lemma_indices_below(models(self.entries@), name_hash(name@));
        }
        let key = name.to_owned();
        let h = hash_of(&chars_of(name));
        let ghost idxs = indices_with(models(self.entries@), h);
        let mut out: Vec<TagEntry> = Vec::new();
        match self.buckets.get(&h) {
            None => {
                assert(idxs =~= Seq::<int>::empty());
            },
            Some(bucket) => {
                let mut j: usize = 0;
                assert(idxs.subrange(0, 0) =~= Seq::<int>::empty());
                while j < bucket.len()
                    invariant
                        key@ == name@,
                        bucket@.map_values(|x: usize| x as int) == idxs,
                        idxs == indices_with(models(self.entries@), h),
                        forall|t: int|
                            0 <= t < idxs.len() ==> 0 <= #[trigger] idxs[t] < self.entries@.len(),
                        j <= bucket@.len(),
                        models(out@) == pick(models(self.entries@), idxs.subrange(0, j as int), name@),
                    decreases bucket@.len() - j,
                {
                    let i = bucket[j];
                    let ghost q = idxs.subrange(0, j + 1);
                    assert(q.drop_last() =~= idxs.subrange(0, j as int));
                    assert(idxs[j as int] == i as int);
                    assert(q.last() == i as int);
                    assert(models(self.entries@)[i as int] == self.entries@[i as int]@);
                    if self.entries[i].name == key {
                        let ghost before = out@;
                        let e = self.entries[i].duplicate();
                        out.push(e);
                        assert(models(out@) =~= models(before).push(e@));
                    }
                    j = j + 1;
                }
                assert(idxs.subrange(0, bucket@.len() as int) =~= idxs);
            },
        }
        out
    }
}

proof fn lemma_line_entries_complete(lines: Seq<Seq<char>>)
    ensures
        forall|i: int|
            0 <= i < entries_of(lines).len() ==> (#[trigger] entries_of(lines)[i]).name.len() > 0
                && entries_of(lines)[i].kind.len() > 0,
    decreases lines.len(),
{
    if lines.len() > 0 {
        let p = lines.drop_last();
        lemma_line_entries_complete(p);
        assert forall|i: int| 0 <= i < entries_of(lines).len() implies (
        #[trigger] entries_of(lines)[i]).name.len() > 0 && entries_of(lines)[i].kind.len() > 0 by {
            if i < entries_of(p).len() {
                assert(entries_of(lines)[i] == entries_of(p)[i]);
            }
        }
    }
}

/// Every entry of a built index has a non-empty name and a non-empty kind:
/// a line that lacks a field gives no entry at all.
pub proof fn lemma_built_entries_complete(sources: Seq<SourceModel>)
    ensures
        forall|i: int|
            0 <= i < sources_entries(sources).len() ==> (#[trigger] sources_entries(sources)[i]).name.len()
                > 0 && sources_entries(sources)[i].kind.len() > 0,
    decreases sources.len(),
{
    if sources.len() > 0 {
        let p = sources.drop_last();
        lemma_built_entries_complete(p);
        let last = sources.last();
        let pre = sources_entries(p);
        let c = contributed(last);
        if let Some(t) = last.text {
            lemma_line_entries_complete(split_on(t, '\n'));
        }
        assert forall|i: int| 0 <= i < sources_entries(sources).len() implies (
        #[trigger] sources_entries(sources)[i]).name.len() > 0 && sources_entries(sources)[i].kind.len()
            > 0 by {
            if i < pre.len() {
                assert(sources_entries(sources)[i] == pre[i]);
            } else {
                assert(sources_entries(sources)[i] == c[i - pre.len()]);
            }
        }
    }
}

/// Every entry that a lookup of `n` returns is named exactly `n`.
pub proof fn lemma_lookup_exact(s: Seq<TagEntryModel>, n: Seq<char>)
    ensures
        forall|i: int| 0 <= i < named(s, n).len() ==> #[trigger] named(s, n)[i].name == n,
    decreases s.len(),
{
    if s.len() > 0 {
        lemma_lookup_exact(s.drop_last(), n);
    }
}

} // verus!
