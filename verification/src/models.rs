//! The entry tree of one dictionary lookup, and the questions the renderer asks of it.
//!
//! Hierarchy, from the leaves up:
//! - [`Sense`]: domains, registers, definitions, cross-reference markers, examples, subsenses
//! - [`Entry`]: pronunciations, variant forms, senses, origins
//! - [`LexicalEntry`]: the entries of one lexical category, and the roots it derives from
//! - [`HeadwordEntry`]: the lexical entries of one headword
//! - [`RetrieveEntry`]: the headwords of one lookup
//!
//! An optional list that is absent and one that is empty mean the same everywhere:
//! [`items`] is how the contracts read such a field.

use vstd::prelude::*;
use vstd::std_specs::cmp::PartialEqSpec;

verus! {

/// `serde_json::Value`, carried through as it came: nothing in this crate looks inside.
#[verifier::external_type_specification]
#[verifier::external_body]
pub struct ExJsonValue(serde_json::Value);

#[derive(Debug)]
pub struct Sense {
    pub definitions: Option<Vec<String>>,
    pub examples: Option<Vec<Example>>,
    pub subsenses: Option<Vec<Sense>>,
    pub domains: Option<Vec<Domain>>,
    pub cross_reference_markers: Option<Vec<String>>,
    pub registers: Option<Vec<Register>>,
}

#[derive(Debug)]
pub struct VariantForm {
    pub regions: Option<Vec<Region>>,
    pub text: String,
}

#[derive(Debug)]
pub struct Entry {
    pub senses: Option<Vec<Sense>>,
    pub pronunciations: Option<Vec<Pronunciation>>,
    pub variant_forms: Option<Vec<VariantForm>>,
    pub origins: Option<Vec<String>>,
}

#[derive(Debug)]
pub struct LexicalEntry {
    pub entries: Vec<Entry>,
    pub language: String,
    pub lexical_category: LexicalCategory,
    pub derivative_of: Option<Vec<DerivativeOf>>,
    pub text: String,
}

#[derive(Debug)]
pub struct HeadwordEntry {
    pub id: String,
    pub language: String,
    pub lexical_entries: Vec<LexicalEntry>,
    pub type_: String,
    pub word: String,
}

#[derive(Debug)]
pub struct RetrieveEntry {
    pub id: Option<String>,
    pub metadata: serde_json::Value,
    pub headword_entries: Vec<HeadwordEntry>,
    pub word: Option<String>,
}

#[derive(Debug)]
pub struct LexicalCategory {
    pub id: String,
    pub text: String,
}

#[derive(Debug)]
pub struct Example {
    pub text: String,
}

#[derive(Debug)]
pub struct Pronunciation {
    pub phonetic_spelling: Option<String>,
    pub phonetic_notation: String,
    pub audio_file: Option<String>,
}

#[derive(Debug)]
pub struct Domain {
    pub id: String,
    pub text: String,
}

#[derive(Debug)]
pub struct Register {
    pub id: String,
    pub text: String,
}

#[derive(Debug)]
pub struct Region {
    pub id: String,
    pub text: String,
}

#[derive(Debug)]
pub struct DerivativeOf {
    pub id: String,
    pub text: String,
}

impl Clone for DerivativeOf {
    fn clone(&self) -> (copy: Self)
        ensures
            copy == *self,
    {
        DerivativeOf { id: self.id.clone(), text: self.text.clone() }
    }
}

/// What an optional list holds: nothing where it is absent.
pub open spec fn items<T>(list: Option<Vec<T>>) -> Seq<T> {
    match list {
        Some(v) => v@,
        None => Seq::empty(),
    }
}

/// Tells whether an optional list holds anything.
pub fn has_items<T>(list: &Option<Vec<T>>) -> (r: bool)
    ensures
        r == (items(*list).len() > 0),
{
    match list {
        Some(v) => v.len() > 0,
        None => false,
    }
}

/// The characters of an optional string.
pub open spec fn text_of(s: Option<String>) -> Option<Seq<char>> {
    match s {
        Some(t) => Some(t@),
        None => None,
    }
}

/// Two pronunciations are the same where notation and spelling agree,
/// whatever their audio files.
pub open spec fn same_pronunciation(a: Pronunciation, b: Pronunciation) -> bool {
    a.phonetic_notation@ == b.phonetic_notation@ && text_of(a.phonetic_spelling) == text_of(
        b.phonetic_spelling,
    )
}

// What `==` means for pronunciations. It stands before `eq`, which is held to it.
impl vstd::std_specs::cmp::PartialEqSpecImpl for Pronunciation {
    open spec fn obeys_eq_spec() -> bool {
        true
    }

    open spec fn eq_spec(&self, other: &Self) -> bool {
        same_pronunciation(*self, *other)
    }
}

impl PartialEq for Pronunciation {
    fn eq(&self, other: &Self) -> (r: bool) {
        let same_spelling = match &self.phonetic_spelling {
            Some(a) => match &other.phonetic_spelling {
                Some(b) => *a == *b,
                None => false,
            },
            None => other.phonetic_spelling.is_none(),
        };
        let same_notation = self.phonetic_notation == other.phonetic_notation;
        same_notation && same_spelling
    }
}

impl Eq for Pronunciation {

}

/// Whether some element of `list` equals `e`, by the element type's own `==`.
pub open spec fn holds_equal<T: PartialEq>(list: Seq<T>, e: T) -> bool {
    exists|j: int| 0 <= j < list.len() && (#[trigger] list[j]).eq_spec(&e)
}

/// Whether every element of the first list has an equal in each of the other lists.
/// Fewer than two lists are covered by default. Nothing is asked of the elements
/// that only the other lists hold.
pub open spec fn first_covered<T: PartialEq>(lists: Seq<Seq<T>>) -> bool {
    lists.len() <= 1 || forall|i: int, k: int|
        0 <= i < lists[0].len() && 1 <= k < lists.len() ==> holds_equal(
            #[trigger] lists[k],
            #[trigger] lists[0][i],
        )
}

/// The lists that a vector of borrowed vectors stands for.
pub open spec fn lists_of<T>(vv: Seq<&Vec<T>>) -> Seq<Seq<T>> {
    Seq::new(vv.len(), |k: int| vv[k]@)
}

/// Tells whether `e` has an equal in `list`.
fn contains_equal<T: Eq>(list: &Vec<T>, e: &T) -> (r: bool)
    ensures
        T::obeys_eq_spec() ==> r == holds_equal(list@, *e),
{
    let mut j: usize = 0;
    while j < list.len()
        invariant
            j <= list.len(),
            T::obeys_eq_spec() ==> forall|m: int| 0 <= m < j ==> !(#[trigger] list@[m]).eq_spec(e),
        decreases list.len() - j,
    {
        if list[j] == *e {
            return true;
        }
        j += 1;
    }
    false
}

/// Tells whether every element of the first vector occurs in each of the others.
///
/// Despite the name the test goes one way only: elements that only a later vector
/// holds do not count against the answer.
pub fn have_same_elements<T: Eq>(vv: Vec<&Vec<T>>) -> (same: bool)
    ensures
        T::obeys_eq_spec() ==> same == first_covered(lists_of(vv@)),
{
    if vv.len() <= 1 {
        return true;
    }
    let ghost lists = lists_of(vv@);
    let first = vv[0];
    let mut i: usize = 0;
    while i < first.len()
        invariant
            i <= first.len(),
            vv.len() > 1,
            first == vv@[0],
            lists == lists_of(vv@),
            T::obeys_eq_spec() ==> forall|a: int, k: int|
                0 <= a < i && 1 <= k < lists.len() ==> holds_equal(
                    #[trigger] lists[k],
                    #[trigger] lists[0][a],
                ),
        decreases first.len() - i,
    {
        let mut k: usize = 1;
        while k < vv.len()
            invariant
                1 <= k <= vv.len(),
                i < first.len(),
                first == vv@[0],
                lists == lists_of(vv@),
                T::obeys_eq_spec() ==> forall|m: int|
                    1 <= m < k ==> holds_equal(#[trigger] lists[m], lists[0][i as int]),
            decreases vv.len() - k,
        {
            if !contains_equal(vv[k], &first[i]) {
                assert(T::obeys_eq_spec() ==> !holds_equal(lists[k as int], lists[0][i as int]));
                return false;
            }
            k += 1;
        }
        i += 1;
    }
    true
}

/// The pronunciation lists of the entries that carry any, in order.
pub open spec fn entry_pronunciations(entries: Seq<Entry>) -> Seq<Seq<Pronunciation>>
    decreases entries.len(),
{
    if entries.len() == 0 {
        Seq::empty()
    } else {
        let before = entry_pronunciations(entries.drop_last());
        let own = items(entries.last().pronunciations);
        if own.len() > 0 {
            before.push(own)
        } else {
            before
        }
    }
}

/// The pronunciation lists under the given lexical entries, in order.
pub open spec fn pronunciation_lists(lexical_entries: Seq<LexicalEntry>) -> Seq<
    Seq<Pronunciation>,
>
    decreases lexical_entries.len(),
{
    if lexical_entries.len() == 0 {
        Seq::empty()
    } else {
        pronunciation_lists(lexical_entries.drop_last()) + entry_pronunciations(
            lexical_entries.last().entries@,
        )
    }
}

/// Whether one pronunciation can stand for the whole headword: every pronunciation
/// of its first pronunciation-bearing entry recurs in each of the other such entries.
pub open spec fn consistent_pronunciation(headword: HeadwordEntry) -> bool {
    first_covered(pronunciation_lists(headword.lexical_entries@))
}

/// Tells whether the pronunciations under `headword` agree: see
/// [`consistent_pronunciation`]. Entries without pronunciations take no part.
pub fn has_consistent_pronunciation(headword: &HeadwordEntry) -> (consistent: bool)
    ensures
        consistent == consistent_pronunciation(*headword),
{
    let lexical_entries = &headword.lexical_entries;
    let mut found: Vec<&Vec<Pronunciation>> = Vec::new();
    let mut l: usize = 0;
    while l < lexical_entries.len()
        invariant
            l <= lexical_entries.len(),
            lists_of(found@) == pronunciation_lists(lexical_entries@.take(l as int)),
        decreases lexical_entries.len() - l,
    {
        let entries = &lexical_entries[l].entries;
        let ghost before = lists_of(found@);
        let mut e: usize = 0;
        while e < entries.len()
            invariant
                e <= entries.len(),
                lists_of(found@) == before + entry_pronunciations(entries@.take(e as int)),
            decreases entries.len() - e,
        {
            assert(entries@.take(e + 1).drop_last() == entries@.take(e as int));
            if let Some(p) = &entries[e].pronunciations {
                if p.len() > 0 {
                    let ghost lists = lists_of(found@);
                    found.push(p);
                    assert(lists_of(found@) == lists.push(p@));
                }
            }
            e += 1;
        }
        assert(entries@.take(e as int) == entries@);
        assert(lexical_entries@.take(l + 1).drop_last() == lexical_entries@.take(l as int));
        l += 1;
    }
    assert(lexical_entries@.take(l as int) == lexical_entries@);
    have_same_elements(found)
}

/// A headword with at most one pronunciation-bearing entry has a consistent pronunciation.
pub proof fn lemma_lone_pronunciation_is_consistent(headword: HeadwordEntry)
    requires
        pronunciation_lists(headword.lexical_entries@).len() <= 1,
    ensures
        consistent_pronunciation(headword),
{
}

/// A headword whose pronunciation-bearing entries all carry the same list of
/// pronunciations has a consistent pronunciation.
pub proof fn lemma_repeated_pronunciation_is_consistent(headword: HeadwordEntry)
    requires
        forall|k: int|
            0 <= k < pronunciation_lists(headword.lexical_entries@).len()
                ==> #[trigger] pronunciation_lists(headword.lexical_entries@)[k]
                == pronunciation_lists(headword.lexical_entries@)[0],
    ensures
        consistent_pronunciation(headword),
{
    let lists = pronunciation_lists(headword.lexical_entries@);
    assert forall|i: int, k: int| 0 <= i < lists[0].len() && 1 <= k < lists.len() implies holds_equal(
        #[trigger] lists[k],
        #[trigger] lists[0][i],
    ) by {
        assert(lists[k][i].eq_spec(&lists[0][i]));
    }
}

/// An entry with nothing to show: no pronunciation, no sense, no variant form.
pub open spec fn bare_entry(entry: Entry) -> bool {
    &&& items(entry.pronunciations).len() == 0
    &&& items(entry.senses).len() == 0
    &&& items(entry.variant_forms).len() == 0
}

/// Whether none of the entries has anything to show.
pub open spec fn bare_entries(entries: Seq<Entry>) -> bool {
    forall|i: int| 0 <= i < entries.len() ==> bare_entry(#[trigger] entries[i])
}

/// Tells whether none of the entries has a pronunciation, a sense or a variant form.
pub fn is_empty_entries(entries: &Vec<Entry>) -> (empty: bool)
    ensures
        empty == bare_entries(entries@),
{
    let mut i: usize = 0;
    while i < entries.len()
        invariant
            i <= entries.len(),
            forall|j: int| 0 <= j < i ==> bare_entry(#[trigger] entries@[j]),
        decreases entries.len() - i,
    {
        let entry = &entries[i];
        if has_items(&entry.pronunciations) || has_items(&entry.senses) || has_items(
            &entry.variant_forms,
        ) {
            return false;
        }
        i += 1;
    }
    true
}

/// A sense that is not worth showing: it has neither a definition nor a
/// cross-reference marker, whatever else it holds.
pub open spec fn bare_sense(sense: Sense) -> bool {
    items(sense.definitions).len() == 0 && items(sense.cross_reference_markers).len() == 0
}

/// Tells whether `sense` has neither a definition nor a cross-reference marker.
pub fn is_empty_sense(sense: &Sense) -> (empty: bool)
    ensures
        empty == bare_sense(*sense),
{
    !has_items(&sense.definitions) && !has_items(&sense.cross_reference_markers)
}

/// The roots of the given lexical entries, in order, repetitions kept.
pub open spec fn lexical_roots(lexical_entries: Seq<LexicalEntry>) -> Seq<DerivativeOf>
    decreases lexical_entries.len(),
{
    if lexical_entries.len() == 0 {
        Seq::empty()
    } else {
        lexical_roots(lexical_entries.drop_last()) + items(lexical_entries.last().derivative_of)
    }
}

/// The roots under the given headwords, in order, repetitions kept.
pub open spec fn headword_roots(headwords: Seq<HeadwordEntry>) -> Seq<DerivativeOf>
    decreases headwords.len(),
{
    if headwords.len() == 0 {
        Seq::empty()
    } else {
        headword_roots(headwords.drop_last()) + lexical_roots(headwords.last().lexical_entries@)
    }
}

/// Collects the roots that the lexical entries of the whole lookup derive from,
/// in the order in which they are met; a root met twice is listed twice.
pub fn roots(retrieve_entry: &RetrieveEntry) -> (found: Vec<DerivativeOf>)
    ensures
        found@ == headword_roots(retrieve_entry.headword_entries@),
{
    let headwords = &retrieve_entry.headword_entries;
    let mut found: Vec<DerivativeOf> = Vec::new();
    let mut h: usize = 0;
    while h < headwords.len()
        invariant
            h <= headwords.len(),
            found@ == headword_roots(headwords@.take(h as int)),
        decreases headwords.len() - h,
    {
        let lexical_entries = &headwords[h].lexical_entries;
        let ghost before = found@;
        let mut l: usize = 0;
        while l < lexical_entries.len()
            invariant
                l <= lexical_entries.len(),
                found@ == before + lexical_roots(lexical_entries@.take(l as int)),
            decreases lexical_entries.len() - l,
        {
            assert(lexical_entries@.take(l + 1).drop_last() == lexical_entries@.take(l as int));
            if let Some(derivative_ofs) = &lexical_entries[l].derivative_of {
                let ghost mid = found@;
                let mut d: usize = 0;
                while d < derivative_ofs.len()
                    invariant
                        d <= derivative_ofs.len(),
                        found@ == mid + derivative_ofs@.take(d as int),
                    decreases derivative_ofs.len() - d,
                {
                    found.push(derivative_ofs[d].clone());
                    d += 1;
                }
                assert(derivative_ofs@.take(d as int) == derivative_ofs@);
            }
            l += 1;
        }
        assert(lexical_entries@.take(l as int) == lexical_entries@);
        assert(headwords@.take(h + 1).drop_last() == headwords@.take(h as int));
        h += 1;
    }
    assert(headwords@.take(h as int) == headwords@);
    found
}

/// The origins of the given entries, in order.
pub open spec fn entry_origins(entries: Seq<Entry>) -> Seq<String>
    decreases entries.len(),
{
    if entries.len() == 0 {
        Seq::empty()
    } else {
        entry_origins(entries.drop_last()) + items(entries.last().origins)
    }
}

/// The origins under the given lexical entries, in order.
pub open spec fn lexical_origins(lexical_entries: Seq<LexicalEntry>) -> Seq<String>
    decreases lexical_entries.len(),
{
    if lexical_entries.len() == 0 {
        Seq::empty()
    } else {
        lexical_origins(lexical_entries.drop_last()) + entry_origins(
            lexical_entries.last().entries@,
        )
    }
}

/// The strings that a vector of borrowed strings stands for.
pub open spec fn strings_of(refs: Seq<&String>) -> Seq<String> {
    Seq::new(refs.len(), |i: int| *refs[i])
}

impl HeadwordEntry {
    /// The origins (etymologies) of every entry under this headword, in order.
    pub fn origins<'a>(&'a self) -> (found: Vec<&'a String>)
        ensures
            strings_of(found@) == lexical_origins(self.lexical_entries@),
    {
        let lexical_entries = &self.lexical_entries;
        let mut found: Vec<&'a String> = Vec::new();
        let mut l: usize = 0;
        while l < lexical_entries.len()
            invariant
                l <= lexical_entries.len(),
                strings_of(found@) == lexical_origins(lexical_entries@.take(l as int)),
            decreases lexical_entries.len() - l,
        {
            let entries = &lexical_entries[l].entries;
            let ghost before = strings_of(found@);
            let mut e: usize = 0;
            while e < entries.len()
                invariant
                    e <= entries.len(),
                    strings_of(found@) == before + entry_origins(entries@.take(e as int)),
                decreases entries.len() - e,
            {
                assert(entries@.take(e + 1).drop_last() == entries@.take(e as int));
                if let Some(origins) = &entries[e].origins {
                    let ghost mid = strings_of(found@);
                    let mut o: usize = 0;
                    while o < origins.len()
                        invariant
                            o <= origins.len(),
                            strings_of(found@) == mid + origins@.take(o as int),
                        decreases origins.len() - o,
                    {
                        let ghost strings = strings_of(found@);
                        found.push(&origins[o]);
                        assert(strings_of(found@) == strings.push(origins@[o as int]));
                        o += 1;
                    }
                    assert(origins@.take(o as int) == origins@);
                }
                e += 1;
            }
            assert(entries@.take(e as int) == entries@);
            assert(lexical_entries@.take(l + 1).drop_last() == lexical_entries@.take(l as int));
            l += 1;
        }
        assert(lexical_entries@.take(l as int) == lexical_entries@);
        found
    }
}

} // verus!
