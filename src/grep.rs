use vstd::prelude::*;

use crate::positions::{flag_set, lists_in_order, positions_where};
use crate::layer::{same_text, Layer};
use crate::pattern::{regex_finds, Pattern};
use crate::token::{sentence_view, Feature, FeaturesView, Token, TokenView};

verus! {

/// Whether layer `layer` of `t` is present and `pattern` matches in it.
pub open spec fn token_matches(t: TokenView, layer: Layer, pattern: Seq<char>) -> bool {
    match layer.spec_value(t) {
        Some(v) => regex_finds(pattern, v),
        None => false,
    }
}

/// The positions of the tokens of `s` that match `pattern` in `layer`.
pub open spec fn match_set(s: Seq<Token>, layer: Layer, pattern: Seq<char>) -> Set<int> {
    Set::new(|i: int| 0 <= i < s.len() && token_matches(s[i]@, layer, pattern))
}

/// A feature after marking with `marker`: the marker feature loses its value.
pub open spec fn unvalued(e: (Seq<char>, Option<Seq<char>>), marker: Seq<char>) -> (Seq<char>, Option<Seq<char>>) {
    if e.0 == marker {
        (e.0, None)
    } else {
        e
    }
}

/// Every feature of `entries` after marking with `marker`.
pub open spec fn unvalued_all(entries: FeaturesView, marker: Seq<char>) -> FeaturesView {
    Seq::new(entries.len(), |j: int| unvalued(entries[j], marker))
}

/// Whether `entries` holds a feature named `name`.
pub open spec fn has_feature(entries: FeaturesView, name: Seq<char>) -> bool {
    exists|k: int| 0 <= k < entries.len() && #[trigger] entries[k].0 == name
}

/// The features of a token after marking it with the flag `marker`: a feature
/// of that name loses its value, and where there is none it is added at the
/// end. Every other feature stays as it was, in its place.
pub open spec fn marked_features(f: Option<FeaturesView>, marker: Seq<char>) -> Option<FeaturesView> {
    let entries = match f {
        Some(e) => e,
        None => Seq::empty(),
    };
    if has_feature(entries, marker) {
        Some(unvalued_all(entries, marker))
    } else {
        Some(entries.push((marker, None)))
    }
}

/// `t` marked with the flag `marker`; its layers are untouched.
pub open spec fn marked_token(t: TokenView, marker: Seq<char>) -> TokenView {
    TokenView { features: marked_features(t.features, marker), ..t }
}

/// The positions that `v` lists.
pub open spec fn index_set(v: Seq<usize>) -> Set<int> {
    Set::new(|i: int| exists|j: int| 0 <= j < v.len() && v[j] as int == i)
}

/// `s` with the tokens at `positions` marked with the flag `marker`; positions
/// beyond the sentence are ignored.
pub open spec fn annotated(s: Seq<TokenView>, positions: Set<int>, marker: Seq<char>) -> Seq<TokenView> {
    Seq::new(s.len(), |i: int| if positions.contains(i) { marked_token(s[i], marker) } else { s[i] })
}

/// The ascending positions of the tokens of `sentence` whose layer `layer` is
/// present and matched by `pattern`.
pub fn match_positions(sentence: &[Token], layer: Layer, pattern: &Pattern) -> (r: Vec<usize>)
    ensures
        lists_in_order(r@, match_set(sentence@, layer, pattern@)),
{
    let mut flags: Vec<bool> = Vec::new();
    let mut i: usize = 0;
    while i < sentence.len()
        invariant
            0 <= i <= sentence.len(),
            flags.len() == i,
            forall|j: int| 0 <= j < i ==> flags@[j] == token_matches(#[trigger] sentence@[j]@, layer, pattern@),
        decreases sentence.len() - i,
    {
        let hit = match layer.value(&sentence[i]) {
            Some(v) => pattern.is_match(v),
            None => false,
        };
        flags.push(hit);
        i = i + 1;
    }
    assert(flag_set(flags@) =~= match_set(sentence@, layer, pattern@));
    positions_where(flags.as_slice())
}

/// Whether some token of `sentence` matches `pattern` in `layer`.
pub fn sentence_matches(sentence: &[Token], layer: Layer, pattern: &Pattern) -> (r: bool)
    ensures
        r == !match_set(sentence@, layer, pattern@).is_empty(),
{
    let positions = match_positions(sentence, layer, pattern);
    if positions.len() == 0 {
        assert(match_set(sentence@, layer, pattern@) =~= Set::<int>::empty());
        false
    } else {
        assert(match_set(sentence@, layer, pattern@).contains(positions@[0] as int));
        true
    }
}

/// A token whose layer is absent never matches in that layer, whatever the
/// pattern.
pub proof fn lemma_absent_never_matches(s: Seq<Token>, layer: Layer, pattern: Seq<char>, i: int)
    requires
        0 <= i < s.len(),
        layer.spec_value(s[i]@) is None,
    ensures
        !match_set(s, layer, pattern).contains(i),
{
}

/// Marking a token twice with the same flag leaves it as marking it once.
pub proof fn lemma_mark_twice(t: TokenView, marker: Seq<char>)
    ensures
        marked_token(marked_token(t, marker), marker) == marked_token(t, marker),
{
    let entries = match t.features {
        Some(e) => e,
        None => Seq::empty(),
    };
    let once = marked_features(t.features, marker)->Some_0;
    if has_feature(entries, marker) {
        let k = choose|k: int| 0 <= k < entries.len() && #[trigger] entries[k].0 == marker;
        assert(once[k].0 == marker);
        assert forall|j: int| 0 <= j < once.len() implies unvalued(#[trigger] once[j], marker) == once[j] by {
            assert(once[j] == unvalued(entries[j], marker));
        }
    } else {
        assert(once[entries.len() as int].0 == marker);
        assert forall|j: int| 0 <= j < once.len() implies unvalued(#[trigger] once[j], marker) == once[j] by {
            if j < entries.len() {
                assert(once[j] == entries[j]);
                assert(entries[j].0 != marker);
            }
        }
    }
    let twice = marked_features(Some(once), marker)->Some_0;
    assert(twice =~= once);
    assert(marked_token(marked_token(t, marker), marker) =~= marked_token(t, marker));
}

/// Annotating twice with the same marker and positions gives what annotating
/// once gives, and annotating keeps every feature of another name as it was,
/// in its place.
pub proof fn lemma_annotate_idempotent(s: Seq<TokenView>, positions: Set<int>, marker: Seq<char>)
    ensures
        annotated(annotated(s, positions, marker), positions, marker) == annotated(s, positions, marker),
        forall|i: int, k: int|
            0 <= i < s.len() && s[i].features is Some && 0 <= k < s[i].features->Some_0.len()
                && s[i].features->Some_0[k].0 != marker ==> (#[trigger] annotated(s, positions, marker)[i]).features->Some_0[k]
                == #[trigger] s[i].features->Some_0[k],
{
    assert forall|i: int| 0 <= i < s.len() implies #[trigger] annotated(annotated(s, positions, marker), positions, marker)[i]
        == annotated(s, positions, marker)[i] by {
        if positions.contains(i) {
            lemma_mark_twice(s[i], marker);
        }
    }
    assert(annotated(annotated(s, positions, marker), positions, marker) =~= annotated(s, positions, marker));
}

/// A copy of an optional string.
fn copy_text(v: &Option<String>) -> (r: Option<String>)
    ensures
        r.deep_view() == v.deep_view(),
{
    match v {
        Some(s) => Some(s.clone()),
        None => None,
    }
}

/// Marks `t` with the flag feature `marker`.
pub fn mark_token(t: &mut Token, marker: &str)
    ensures
        final(t)@ == marked_token(old(t)@, marker@),
{
    let ghost entries = match old(t)@.features {
        Some(e) => e,
        None => Seq::<(Seq<char>, Option<Seq<char>>)>::empty(),
    };
    let mut updated: Vec<Feature> = Vec::new();
    let mut found = false;
    match &t.features {
        Some(f) => {
            let mut i: usize = 0;
            while i < f.len()
                invariant
                    0 <= i <= f.len(),
                    f.deep_view() == entries,
                    updated.deep_view() == unvalued_all(entries.take(i as int), marker@),
                    found == exists|k: int| 0 <= k < i && #[trigger] entries[k].0 == marker@,
                decreases f.len() - i,
            {
                let ghost before = updated.deep_view();
                let name = f[i].0.clone();
                assert(name@ == entries[i as int].0);
                if same_text(name.as_str(), marker) {
                    updated.push((name, None));
                    found = true;
                } else {
                    updated.push((name, copy_text(&f[i].1)));
                }
                assert(updated.deep_view() =~= before.push(unvalued(entries[i as int], marker@)));
                assert(unvalued_all(entries.take(i as int + 1), marker@)
                    =~= unvalued_all(entries.take(i as int), marker@).push(unvalued(entries[i as int], marker@)));
                i = i + 1;
            }
            assert(entries.take(f.len() as int) =~= entries);
            assert(updated.deep_view() == unvalued_all(entries, marker@));
            assert(found == exists|k: int| 0 <= k < entries.len() && #[trigger] entries[k].0 == marker@);
        },
        None => {
            assert(updated.deep_view() =~= unvalued_all(entries, marker@));
            assert(entries.len() == 0);
        },
    }
    assert(found == has_feature(entries, marker@));
    if !found {
        let ghost before = updated.deep_view();
        updated.push((String::from_str(marker), None));
        assert(before =~= entries);
        assert(updated.deep_view() =~= marked_features(old(t)@.features, marker@)->Some_0);
    } else {
        assert(updated.deep_view() =~= marked_features(old(t)@.features, marker@)->Some_0);
    }
    t.features = Some(updated);
}

/// Marks the tokens of `sentence` at `positions` with the flag feature
/// `marker`. Positions beyond the sentence are ignored.
pub fn annotate(sentence: &mut Vec<Token>, positions: &[usize], marker: &str)
    ensures
        sentence_view(final(sentence)@) == annotated(sentence_view(old(sentence)@), index_set(positions@), marker@),
{
    let ghost orig = sentence_view(sentence@);
    let mut i: usize = 0;
    assert(annotated(orig, index_set(positions@.take(0)), marker@) =~= orig);
    while i < positions.len()
        invariant
            0 <= i <= positions.len(),
            orig.len() == sentence.len(),
            sentence_view(sentence@) == annotated(orig, index_set(positions@.take(i as int)), marker@),
        decreases positions.len() - i,
    {
        let p = positions[i];
        let ghost done = index_set(positions@.take(i as int));
        let ghost next = index_set(positions@.take(i as int + 1));
        assert(next =~= done.insert(p as int)) by {
            assert forall|q: int| next.contains(q) implies #[trigger] done.insert(p as int).contains(q) by {
                let j = choose|j: int| 0 <= j < i + 1 && #[trigger] positions@.take(i as int + 1)[j] as int == q;
                if j < i {
                    assert(positions@.take(i as int)[j] as int == q);
                }
            }
            assert forall|q: int| done.insert(p as int).contains(q) implies #[trigger] next.contains(q) by {
                if q == p as int {
                    assert(positions@.take(i as int + 1)[i as int] as int == q);
                } else {
                    let j = choose|j: int| 0 <= j < i && #[trigger] positions@.take(i as int)[j] as int == q;
                    assert(positions@.take(i as int + 1)[j] as int == q);
                }
            }
        }
        if p < sentence.len() {
            let ghost before = sentence@;
            mark_token(&mut sentence[p], marker);
            proof {
                lemma_mark_twice(orig[p as int], marker@);
                assert(sentence@ == before.update(p as int, sentence@[p as int]));
                assert(before[p as int]@ == annotated(orig, done, marker@)[p as int]);
                assert(sentence@[p as int]@ == marked_token(orig[p as int], marker@));
                assert forall|q: int| 0 <= q < orig.len() implies #[trigger] sentence_view(sentence@)[q]
                    == annotated(orig, next, marker@)[q] by {
                    if q != p as int {
                        assert(sentence@[q] == before[q]);
                        assert(before[q]@ == annotated(orig, done, marker@)[q]);
                    }
                }
                assert(sentence_view(sentence@) =~= annotated(orig, next, marker@));
            }
        } else {
            assert(sentence_view(sentence@) =~= annotated(orig, next, marker@));
        }
        i = i + 1;
    }
    assert(positions@.take(positions.len() as int) =~= positions@);
}

/// What is emitted for a sentence with matches at `positions`: without a
/// marker the sentence as it is where it has a match, and nothing otherwise;
/// with a marker the sentence with the matched tokens marked, always.
pub fn apply_matches(sentence: Vec<Token>, positions: &[usize], marker: Option<&str>) -> (r: Option<Vec<Token>>)
    ensures
        marker is None ==> (r is Some <==> positions.len() > 0),
        marker is None && r is Some ==> r->Some_0@ == sentence@,
        marker is Some ==> r is Some && sentence_view(r->Some_0@) == annotated(
            sentence_view(sentence@),
            index_set(positions@),
            marker->Some_0@,
        ),
{
    match marker {
        None => {
            if positions.len() > 0 {
                Some(sentence)
            } else {
                None
            }
        },
        Some(m) => {
            let mut marked = sentence;
            annotate(&mut marked, positions, m);
            Some(marked)
        },
    }
}

/// Filters or marks one sentence: the tokens whose layer `layer` matches
/// `pattern` decide. Without a marker the sentence is kept, unchanged, exactly
/// when some token matches; with a marker it is always kept, with every
/// matching token marked.
pub fn grep_sentence(sentence: Vec<Token>, layer: Layer, pattern: &Pattern, marker: Option<&str>) -> (r: Option<Vec<Token>>)
    ensures
        marker is None ==> (r is Some <==> !match_set(sentence@, layer, pattern@).is_empty()),
        marker is None && r is Some ==> r->Some_0@ == sentence@,
        marker is Some ==> r is Some && sentence_view(r->Some_0@) == annotated(
            sentence_view(sentence@),
            match_set(sentence@, layer, pattern@),
            marker->Some_0@,
        ),
{
    let positions = match_positions(sentence.as_slice(), layer, pattern);
    let ghost matched = match_set(sentence@, layer, pattern@);
    assert(index_set(positions@) =~= matched);
    if positions.len() > 0 {
        assert(matched.contains(positions@[0] as int));
    } else {
        assert(matched =~= Set::<int>::empty());
    }
    apply_matches(sentence, positions.as_slice(), marker)
}

} // verus!
