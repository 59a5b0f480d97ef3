//! Resolution of a cursor position to the definitions of the identifier
//! under it.
use vstd::prelude::*;
use crate::error::{LspError, LspErrorCode};
use crate::index::{named, WorkspaceIndex};
use crate::tags::{models, AddressingModel, TagEntry, TagEntryModel};
use crate::text::{chars_of, identifier_at, text_of, word_at};

verus! {

/// A zero-based position in a document; `character` counts characters.
#[derive(Clone, Copy, Debug, PartialEq, Eq, Structural)]
pub struct Position {
    pub line: u32,
    pub character: u32,
}

/// A span between two positions.
#[derive(Clone, Copy, Debug, PartialEq, Eq, Structural)]
pub struct Range {
    pub start: Position,
    pub end: Position,
}

/// A place in a document.
#[derive(Clone, Debug)]
pub struct Location {
    pub uri: String,
    pub range: Range,
}

pub struct LocationModel {
    pub uri: Seq<char>,
    pub range: Range,
}

impl View for Location {
    type V = LocationModel;

    open spec fn view(&self) -> LocationModel {
        LocationModel { uri: self.uri@, range: self.range }
    }
}

/// The zero-based line an address points to. A search pattern cannot be
/// followed without the file, so it points to the file's first line.
pub open spec fn target_line(a: AddressingModel) -> u32 {
    match a {
        AddressingModel::Line(n) => if n >= 1 {
            (n - 1) as u32
        } else {
            0
        },
        AddressingModel::Pattern(_) => 0,
    }
}

/// Where the definition that `e` records is, as an empty range at the start
/// of its line.
pub open spec fn location_of(e: TagEntryModel) -> LocationModel {
    let p = Position { line: target_line(e.address), character: 0 };
    LocationModel { uri: e.file, range: Range { start: p, end: p } }
}

pub open spec fn locations_of(s: Seq<TagEntryModel>) -> Seq<LocationModel> {
    s.map_values(|e: TagEntryModel| location_of(e))
}

/// The entries of `s` defined in `uri`, in order.
pub open spec fn in_file(s: Seq<TagEntryModel>, uri: Seq<char>) -> Seq<TagEntryModel>
    decreases s.len(),
{
    if s.len() == 0 {
        Seq::empty()
    } else if s.last().file == uri {
        in_file(s.drop_last(), uri).push(s.last())
    } else {
        in_file(s.drop_last(), uri)
    }
}

/// The entries of `s` whose kind is among `kinds`, in order.
pub open spec fn of_kinds(s: Seq<TagEntryModel>, kinds: Seq<Seq<char>>) -> Seq<TagEntryModel>
    decreases s.len(),
{
    if s.len() == 0 {
        Seq::empty()
    } else if kinds.contains(s.last().kind) {
        of_kinds(s.drop_last(), kinds).push(s.last())
    } else {
        of_kinds(s.drop_last(), kinds)
    }
}

/// `narrowed` where it keeps anything, else all of `s`.
pub open spec fn prefer(narrowed: Seq<TagEntryModel>, s: Seq<TagEntryModel>) -> Seq<TagEntryModel> {
    if narrowed.len() > 0 {
        narrowed
    } else {
        s
    }
}

/// The candidates that remain: those defined in the requesting document if
/// any are, then of those the ones whose kind the context hints at if any
/// are; all that remain, in the order of `s`.
pub open spec fn disambiguate(
    s: Seq<TagEntryModel>,
    uri: Seq<char>,
    kinds: Seq<Seq<char>>,
) -> Seq<TagEntryModel> {
    let a = prefer(in_file(s, uri), s);
    prefer(of_kinds(a, kinds), a)
}

pub open spec fn texts(v: Seq<String>) -> Seq<Seq<char>> {
    v.map_values(|h: String| h@)
}

/// The answer to a definition request: nothing, one place, or several.
#[derive(Clone, Debug)]
pub enum DefinitionResult {
    Null,
    Single(Location),
    Many(Vec<Location>),
}

impl View for DefinitionResult {
    type V = Seq<LocationModel>;

    open spec fn view(&self) -> Seq<LocationModel> {
        match self {
            DefinitionResult::Null => Seq::empty(),
            DefinitionResult::Single(l) => seq![l@],
            DefinitionResult::Many(v) => v@.map_values(|l: Location| l@),
        }
    }
}

/// Whether the variant matches the number of locations: `Null` for none,
/// `Single` for one, `Many` for more.
pub open spec fn well_shaped(r: DefinitionResult) -> bool {
    match r {
        DefinitionResult::Null => true,
        DefinitionResult::Single(_) => true,
        DefinitionResult::Many(v) => v@.len() >= 2,
    }
}

/// The places that a definition request finds, given the identifier under
/// the cursor and an index snapshot.
pub open spec fn definitions(
    index: Seq<TagEntryModel>,
    uri: Seq<char>,
    word: Seq<char>,
    kinds: Seq<Seq<char>>,
) -> Seq<LocationModel> {
    locations_of(disambiguate(named(index, word), uri, kinds))
}

fn keep_in_file(s: &Vec<TagEntry>, uri: &String) -> (r: Vec<TagEntry>)
    ensures
        models(r@) == in_file(models(s@), uri@),
{
    let mut out: Vec<TagEntry> = Vec::new();
    let mut i: usize = 0;
    assert(models(s@).subrange(0, 0) =~= Seq::<TagEntryModel>::empty());
    while i < s.len()
        invariant
            i <= s@.len(),
            models(out@) == in_file(models(s@).subrange(0, i as int), uri@),
        decreases s@.len() - i,
    {
        let ghost q = models(s@).subrange(0, i + 1);
        assert(q.drop_last() =~= models(s@).subrange(0, i as int));
        assert(q.last() == s@[i as int]@);
        if s[i].file == *uri {
            let ghost before = out@;
            let e = s[i].duplicate();
            out.push(e);
            assert(models(out@) =~= models(before).push(e@));
        }
        i = i + 1;
    }
    assert(models(s@).subrange(0, s@.len() as int) =~= models(s@));
    out
}

fn is_among(kind: &String, kinds: &Vec<String>) -> (r: bool)
    ensures
        r == texts(kinds@).contains(kind@),
{
    let mut i: usize = 0;
    while i < kinds.len()
        invariant
            i <= kinds@.len(),
            forall|j: int| 0 <= j < i ==> kinds@[j]@ != kind@,
        decreases kinds@.len() - i,
    {
        if kinds[i] == *kind {
            assert(texts(kinds@)[i as int] == kind@);
            return true;
        }
        i = i + 1;
    }
    proof {
        if texts(kinds@).contains(kind@) {
            let j = choose|j: int| 0 <= j < texts(kinds@).len() && texts(kinds@)[j] == kind@;
            assert(kinds@[j]@ == kind@);
        }
    }
    false
}

fn keep_of_kinds(s: &Vec<TagEntry>, kinds: &Vec<String>) -> (r: Vec<TagEntry>)
    ensures
        models(r@) == of_kinds(models(s@), texts(kinds@)),
{
    let mut out: Vec<TagEntry> = Vec::new();
    let mut i: usize = 0;
    assert(models(s@).subrange(0, 0) =~= Seq::<TagEntryModel>::empty());
    while i < s.len()
        invariant
            i <= s@.len(),
            models(out@) == of_kinds(models(s@).subrange(0, i as int), texts(kinds@)),
        decreases s@.len() - i,
    {
        let ghost q = models(s@).subrange(0, i + 1);
        assert(q.drop_last() =~= models(s@).subrange(0, i as int));
        assert(q.last() == s@[i as int]@);
        if is_among(&s[i].kind, kinds) {
            let ghost before = out@;
            let e = s[i].duplicate();
            out.push(e);
            assert(models(out@) =~= models(before).push(e@));
        }
        i = i + 1;
    }
    assert(models(s@).subrange(0, s@.len() as int) =~= models(s@));
    out
}

/// Narrows ambiguous candidates; see `disambiguate`.
pub fn choose_candidates(
    candidates: Vec<TagEntry>,
    uri: &String,
    kinds: &Vec<String>,
) -> (r: Vec<TagEntry>)
    ensures
        models(r@) == disambiguate(models(candidates@), uri@, texts(kinds@)),
{
    let same = keep_in_file(&candidates, uri);
    let a = if same.len() > 0 {
        same
    } else {
        candidates
    };
    let hinted = keep_of_kinds(&a, kinds);
    if hinted.len() > 0 {
        hinted
    } else {
        a
    }
}

/// Where the definition that `e` records is; see `location_of`.
pub fn entry_location(e: &TagEntry) -> (r: Location)
    ensures
        r@ == location_of(e@),
{
    let line: u32 = match &e.address {
        crate::tags::Addressing::Line(n) => if *n >= 1 {
            *n - 1
        } else {
            0
        },
        crate::tags::Addressing::Pattern(_) => 0,
    };
    let p = Position { line, character: 0 };
    Location { uri: e.file.clone(), range: Range { start: p, end: p } }
}

/// The results that a definition request owes. `line` is the text of the
/// requested line, `None` where it is not available; `index` is the snapshot,
/// `None` where none has been published yet. `Err` holds the error kind.
pub open spec fn definition_outcome(
    index: Option<Seq<TagEntryModel>>,
    uri: Seq<char>,
    line: Option<Seq<char>>,
    at: Position,
    kinds: Seq<Seq<char>>,
) -> Result<Seq<LocationModel>, LspErrorCode> {
    match line {
        None => Err(LspErrorCode::RequestFailed),
        Some(l) => match word_at(l, at.character as int) {
            None => Ok(Seq::empty()),
            Some(w) => match index {
                None => Err(LspErrorCode::RequestFailed),
                Some(s) => Ok(definitions(s, uri, w, kinds)),
            },
        },
    }
}

pub open spec fn opt_str(s: Option<&str>) -> Option<Seq<char>> {
    match s {
        Some(t) => Some(t@),
        None => None,
    }
}

pub open spec fn opt_index(s: Option<&WorkspaceIndex>) -> Option<Seq<TagEntryModel>> {
    match s {
        Some(i) => Some(i@),
        None => None,
    }
}

/// Whether `r` is the response that `outcome` asks for.
pub open spec fn answers(
    r: Result<DefinitionResult, LspError>,
    outcome: Result<Seq<LocationModel>, LspErrorCode>,
) -> bool {
    match outcome {
        Ok(locs) => r is Ok && r->Ok_0@ == locs && well_shaped(r->Ok_0),
        Err(c) => r is Err && r->Err_0.code == c && r->Err_0.message@.len() > 0,
    }
}

/// Answers a definition request against one index snapshot: the identifier
/// under `at` in `line_text` is looked up and its candidates narrowed. A
/// position that is not on an identifier gives `Null`, never an error.
pub fn resolve_definition(
    index: Option<&WorkspaceIndex>,
    uri: &str,
    line_text: Option<&str>,
    at: Position,
    kinds: &Vec<String>,
) -> (r: Result<DefinitionResult, LspError>)
    ensures
        answers(r, definition_outcome(opt_index(index), uri@, opt_str(line_text), at, texts(kinds@))),
{
    let line = match line_text {
        Some(l) => chars_of(l),
        None => {
            proof {
                reveal_strlit("document text unavailable");
            }
            return Err(LspError::new(LspErrorCode::RequestFailed, "document text unavailable"));
        },
    };
    let word = match identifier_at(&line, at.character as usize) {
        Some(w) => w,
        None => {
            return Ok(DefinitionResult::Null);
        },
    };
    let snapshot = match index {
        Some(s) => s,
        None => {
            proof {
                reveal_strlit("index not ready");
            }
            return Err(LspError::new(LspErrorCode::RequestFailed, "index not ready"));
        },
    };
    let name = text_of(word.as_slice());
    let candidates = snapshot.lookup(name.as_str());
    let uri_text = uri.to_owned();
    let chosen = choose_candidates(candidates, &uri_text, kinds);
    let ghost target = disambiguate(named(snapshot@, word@), uri@, texts(kinds@));
    assert(models(chosen@) == target);
    if chosen.len() == 0 {
        assert(locations_of(target) =~= Seq::<LocationModel>::empty());
        return Ok(DefinitionResult::Null);
    }
    if chosen.len() == 1 {
        let l = entry_location(&chosen[0]);
        assert(models(chosen@)[0] == chosen@[0]@);
        assert(locations_of(target) =~= seq![l@]);
        return Ok(DefinitionResult::Single(l));
    }
    let mut out: Vec<Location> = Vec::new();
    let mut i: usize = 0;
    while i < chosen.len()
        invariant
            i <= chosen@.len(),
            models(chosen@) == target,
            out@.map_values(|l: Location| l@) == locations_of(target).subrange(0, i as int),
        decreases chosen@.len() - i,
    {
        let l = entry_location(&chosen[i]);
        assert(models(chosen@)[i as int] == chosen@[i as int]@);
        let ghost before = out@;
        out.push(l);
        i = i + 1;
        assert(out@.map_values(|l: Location| l@) =~= before.map_values(|l: Location| l@).push(l@));
        assert(locations_of(target).subrange(0, i as int) =~= locations_of(target).subrange(
            0,
            i - 1,
        ).push(l@));
    }
    assert(locations_of(target).subrange(0, i as int) =~= locations_of(target));
    Ok(DefinitionResult::Many(out))
}

/// A request whose position is on whitespace or punctuation, or past the end
/// of its line, gets a null result and never an error, whatever the index.
pub proof fn lemma_off_identifier_is_null(
    index: Option<Seq<TagEntryModel>>,
    uri: Seq<char>,
    line: Seq<char>,
    at: Position,
    kinds: Seq<Seq<char>>,
)
    requires
        at.character >= line.len() || !crate::text::is_ident_char(line[at.character as int]),
    ensures
        definition_outcome(index, uri, Some(line), at, kinds) == Ok::<Seq<LocationModel>, LspErrorCode>(
            Seq::empty(),
        ),
{
}

proof fn lemma_in_file_all(s: Seq<TagEntryModel>, uri: Seq<char>)
    ensures
        forall|i: int| 0 <= i < in_file(s, uri).len() ==> #[trigger] in_file(s, uri)[i].file == uri,
        (exists|j: int| 0 <= j < s.len() && #[trigger] s[j].file == uri) ==> in_file(s, uri).len() > 0,
        (forall|j: int| 0 <= j < s.len() ==> #[trigger] s[j].file != uri) ==> in_file(s, uri).len() == 0,
    decreases s.len(),
{
    if s.len() > 0 {
        let p = s.drop_last();
        lemma_in_file_all(p, uri);
        if exists|j: int| 0 <= j < s.len() && #[trigger] s[j].file == uri {
            let j = choose|j: int| 0 <= j < s.len() && #[trigger] s[j].file == uri;
            if j < p.len() {
                assert(p[j].file == uri);
            }
        }
        if forall|j: int| 0 <= j < s.len() ==> #[trigger] s[j].file != uri {
            assert forall|j: int| 0 <= j < p.len() implies #[trigger] p[j].file != uri by {
                assert(p[j] == s[j]);
            }
        }
    }
}

proof fn lemma_of_kinds_keeps_file(a: Seq<TagEntryModel>, kinds: Seq<Seq<char>>, uri: Seq<char>)
    requires
        forall|i: int| 0 <= i < a.len() ==> #[trigger] a[i].file == uri,
    ensures
        forall|i: int| 0 <= i < of_kinds(a, kinds).len() ==> #[trigger] of_kinds(a, kinds)[i].file == uri,
    decreases a.len(),
{
    if a.len() > 0 {
        let p = a.drop_last();
        assert forall|i: int| 0 <= i < p.len() implies #[trigger] p[i].file == uri by {
            assert(p[i] == a[i]);
        }
        lemma_of_kinds_keeps_file(p, kinds, uri);
    }
}

proof fn lemma_of_kinds_none(a: Seq<TagEntryModel>)
    ensures
        of_kinds(a, Seq::empty()).len() == 0,
    decreases a.len(),
{
    if a.len() > 0 {
        lemma_of_kinds_none(a.drop_last());
    }
}

/// Where the requesting document defines the identifier, only definitions
/// in that document are returned.
pub proof fn lemma_same_document_preferred(
    index: Seq<TagEntryModel>,
    uri: Seq<char>,
    word: Seq<char>,
    kinds: Seq<Seq<char>>,
)
    requires
        exists|j: int| 0 <= j < named(index, word).len() && #[trigger] named(index, word)[j].file == uri,
    ensures
        definitions(index, uri, word, kinds).len() > 0,
        forall|i: int|
            0 <= i < definitions(index, uri, word, kinds).len() ==> #[trigger] definitions(
                index,
                uri,
                word,
                kinds,
            )[i].uri == uri,
{
    let c = named(index, word);
    lemma_in_file_all(c, uri);
    let a = in_file(c, uri);
    lemma_of_kinds_keeps_file(a, kinds, uri);
}

/// Where no definition is in the requesting document and no kind is hinted,
/// every definition of the identifier is returned, in the sources' order.
pub proof fn lemma_no_preference_keeps_all(index: Seq<TagEntryModel>, uri: Seq<char>, word: Seq<char>)
    requires
        forall|j: int| 0 <= j < named(index, word).len() ==> #[trigger] named(index, word)[j].file != uri,
    ensures
        definitions(index, uri, word, Seq::empty()) == locations_of(named(index, word)),
{
    let c = named(index, word);
    lemma_in_file_all(c, uri);
    lemma_of_kinds_none(c);
}

proof fn lemma_named_within(s: Seq<TagEntryModel>, n: Seq<char>)
    ensures
        forall|i: int| 0 <= i < named(s, n).len() ==> s.contains(#[trigger] named(s, n)[i]),
    decreases s.len(),
{
    if s.len() > 0 {
        let p = s.drop_last();
        lemma_named_within(p, n);
        assert forall|i: int| 0 <= i < named(s, n).len() implies s.contains(#[trigger] named(s, n)[i]) by {
            if i < named(p, n).len() {
                assert(named(s, n)[i] == named(p, n)[i]);
                let j = choose|j: int| 0 <= j < p.len() && p[j] == named(p, n)[i];
                assert(s[j] == p[j]);
            } else {
                assert(s[s.len() - 1] == s.last());
            }
        }
    }
}

proof fn lemma_in_file_within(s: Seq<TagEntryModel>, uri: Seq<char>)
    ensures
        forall|i: int| 0 <= i < in_file(s, uri).len() ==> s.contains(#[trigger] in_file(s, uri)[i]),
    decreases s.len(),
{
    if s.len() > 0 {
        let p = s.drop_last();
        lemma_in_file_within(p, uri);
        assert forall|i: int| 0 <= i < in_file(s, uri).len() implies s.contains(
            #[trigger] in_file(s, uri)[i],
        ) by {
            if i < in_file(p, uri).len() {
                assert(in_file(s, uri)[i] == in_file(p, uri)[i]);
                let j = choose|j: int| 0 <= j < p.len() && p[j] == in_file(p, uri)[i];
                assert(s[j] == p[j]);
            } else {
                assert(s[s.len() - 1] == s.last());
            }
        }
    }
}

proof fn lemma_of_kinds_within(s: Seq<TagEntryModel>, kinds: Seq<Seq<char>>)
    ensures
        forall|i: int| 0 <= i < of_kinds(s, kinds).len() ==> s.contains(#[trigger] of_kinds(s, kinds)[i]),
    decreases s.len(),
{
    if s.len() > 0 {
        let p = s.drop_last();
        lemma_of_kinds_within(p, kinds);
        assert forall|i: int| 0 <= i < of_kinds(s, kinds).len() implies s.contains(
            #[trigger] of_kinds(s, kinds)[i],
        ) by {
            if i < of_kinds(p, kinds).len() {
                assert(of_kinds(s, kinds)[i] == of_kinds(p, kinds)[i]);
                let j = choose|j: int| 0 <= j < p.len() && p[j] == of_kinds(p, kinds)[i];
                assert(s[j] == p[j]);
            } else {
                assert(s[s.len() - 1] == s.last());
            }
        }
    }
}

/// Whether `loc` is where some entry of `index` named `word` points.
pub open spec fn drawn_from(index: Seq<TagEntryModel>, word: Seq<char>, loc: LocationModel) -> bool {
    exists|e: TagEntryModel| index.contains(e) && e.name == word && loc == location_of(e)
}

/// Every place that a request answers with comes from an entry of the one
/// snapshot it was resolved against, named exactly as the identifier.
pub proof fn lemma_results_from_snapshot(
    index: Seq<TagEntryModel>,
    uri: Seq<char>,
    word: Seq<char>,
    kinds: Seq<Seq<char>>,
)
    ensures
        forall|i: int|
            0 <= i < definitions(index, uri, word, kinds).len() ==> drawn_from(
                index,
                word,
                #[trigger] definitions(index, uri, word, kinds)[i],
            ),
{
    let c = named(index, word);
    let a = prefer(in_file(c, uri), c);
    let d = prefer(of_kinds(a, kinds), a);
    lemma_named_within(index, word);
    crate::index::lemma_lookup_exact(index, word);
    lemma_in_file_within(c, uri);
    lemma_of_kinds_within(a, kinds);
    assert forall|i: int| 0 <= i < definitions(index, uri, word, kinds).len() implies drawn_from(
        index,
        word,
        #[trigger] definitions(index, uri, word, kinds)[i],
    ) by {
        let x = d[i];
        assert(a.contains(x));
        let ja = choose|j: int| 0 <= j < a.len() && a[j] == x;
        assert(c.contains(x)) by {
            if in_file(c, uri).len() > 0 {
                assert(in_file(c, uri)[ja] == x);
            }
        }
        let jc = choose|j: int| 0 <= j < c.len() && c[j] == x;
        assert(index.contains(c[jc]));
        assert(c[jc].name == word);
        assert(definitions(index, uri, word, kinds)[i] == location_of(x));
    }
}

} // verus!
