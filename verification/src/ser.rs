//! The filtering serialization model: what a filtered walk over a record's
//! fields emits, and how the emitted pairs become a structured document.

use vstd::prelude::*;

use crate::fields::ViewFields;

verus! {

/// serde_json's in-memory document value. Opaque to the verifier: the crate
/// carries field values through unchanged and only assembles objects from
/// them.
#[verifier::external_type_specification]
#[verifier::external_body]
pub struct ExValue(serde_json::Value);

/// The JSON object holding exactly the given name-to-value entries. Names
/// what building `serde_json::Value::Object` from those entries returns; it
/// depends on the entries alone.
pub uninterp spec fn obj_of(entries: Map<Seq<char>, serde_json::Value>) -> serde_json::Value;

/// The name-to-value map read off a pair sequence, later pairs winning, as
/// repeated insertion would build it.
pub open spec fn entries_map(s: Seq<(Seq<char>, serde_json::Value)>) -> Map<
    Seq<char>,
    serde_json::Value,
>
    decreases s.len(),
{
    if s.len() == 0 {
        Map::empty()
    } else {
        entries_map(s.drop_last()).insert(s.last().0, s.last().1)
    }
}

/// The pairs a filtering walk emits: every entry whose variant the selection
/// includes contributes its canonical name and its unchanged value, in order.
/// An empty selection is the select-all sentinel: it excludes nothing.
pub open spec fn emitted<F: ViewFields>(
    entries: Seq<(F, serde_json::Value)>,
    sel: Set<F>,
) -> Seq<(Seq<char>, serde_json::Value)>
    decreases entries.len(),
{
    if entries.len() == 0 {
        Seq::empty()
    } else {
        let rest = emitted(entries.drop_last(), sel);
        let e = entries.last();
        if sel.is_empty() || sel.contains(e.0) {
            rest.push((e.0.name_spec(), e.1))
        } else {
            rest
        }
    }
}

/// Relies on serde_json::Map's FromIterator impl and serde_json::Value's
/// Object constructor: collecting the pairs builds the object whose fields
/// are exactly those pairs, later duplicates winning, so the result depends
/// only on the resulting entry map.
#[verifier::external_body]
pub(crate) fn json_object(pairs: Vec<(String, serde_json::Value)>) -> (r: serde_json::Value)
    ensures
        r == obj_of(entries_map(pairs@.map_values(|p: (String, serde_json::Value)| (p.0@, p.1)))),
{
    serde_json::Value::Object(pairs.into_iter().collect())
}

/// An empty selection filters nothing: the walk emits every field, in
/// declared order, each with its canonical name and its unchanged value —
/// exactly the record's own unfiltered serialization.
pub proof fn lemma_empty_selection_emits_all<F: ViewFields>(entries: Seq<(F, serde_json::Value)>)
    ensures
        emitted(entries, Set::<F>::empty()) == entries.map_values(
            |e: (F, serde_json::Value)| (e.0.name_spec(), e.1),
        ),
    decreases entries.len(),
{
    let f = |e: (F, serde_json::Value)| (e.0.name_spec(), e.1);
    assert(Set::<F>::empty().is_empty());
    if entries.len() == 0 {
        assert(emitted(entries, Set::<F>::empty()) =~= entries.map_values(f));
    } else {
        lemma_empty_selection_emits_all::<F>(entries.drop_last());
        assert(entries.drop_last().map_values(f) =~= entries.map_values(f).drop_last());
        assert(entries.map_values(f).len() > 0);
        assert(entries.map_values(f).last() == f(entries.last()));
        assert(emitted(entries, Set::<F>::empty()) =~= entries.map_values(f));
    }
}

/// The names of the entries that a nonempty selection lets through.
proof fn lemma_emitted_dom<F: ViewFields>(entries: Seq<(F, serde_json::Value)>, sel: Set<F>)
    requires
        !sel.is_empty(),
    ensures
        entries_map(emitted(entries, sel)).dom() =~= Set::new(
            |n: Seq<char>|
                exists|i: int|
                    #![trigger entries[i]]
                    0 <= i < entries.len() && sel.contains(entries[i].0) && entries[i].0.name_spec()
                        == n,
        ),
    decreases entries.len(),
{
    let target = Set::new(
        |n: Seq<char>|
            exists|i: int|
                #![trigger entries[i]]
                0 <= i < entries.len() && sel.contains(entries[i].0) && entries[i].0.name_spec()
                    == n,
    );
    if entries.len() == 0 {
        assert(entries_map(emitted(entries, sel)).dom() =~= target);
    } else {
        let prefix = entries.drop_last();
        lemma_emitted_dom::<F>(prefix, sel);
        let e = entries.last();
        let sub = Set::new(
            |n: Seq<char>|
                exists|i: int|
                    #![trigger prefix[i]]
                    0 <= i < prefix.len() && sel.contains(prefix[i].0) && prefix[i].0.name_spec()
                        == n,
        );
        assert(forall|i: int| 0 <= i < prefix.len() ==> prefix[i] == #[trigger] entries[i]);
        if sel.contains(e.0) {
            assert(emitted(entries, sel) == emitted(prefix, sel).push((e.0.name_spec(), e.1)));
            assert(entries_map(emitted(entries, sel)) == entries_map(
                emitted(prefix, sel),
            ).insert(e.0.name_spec(), e.1)) by {
                let w = emitted(prefix, sel).push((e.0.name_spec(), e.1));
                assert(w.drop_last() =~= emitted(prefix, sel));
                assert(w.last() == (e.0.name_spec(), e.1));
            }
            assert forall|n: Seq<char>|
                entries_map(emitted(entries, sel)).dom().contains(n) implies target.contains(
                n,
            ) by {
                if n == e.0.name_spec() {
                    assert(entries[entries.len() - 1] == e);
                } else {
                    assert(sub.contains(n));
                    let i = choose|i: int|
                        #![trigger prefix[i]]
                        0 <= i < prefix.len() && sel.contains(prefix[i].0)
                            && prefix[i].0.name_spec() == n;
                    assert(entries[i] == prefix[i]);
                }
            }
            assert forall|n: Seq<char>| target.contains(n) implies entries_map(
                emitted(entries, sel),
            ).dom().contains(n) by {
                let i = choose|i: int|
                    #![trigger entries[i]]
                    0 <= i < entries.len() && sel.contains(entries[i].0)
                        && entries[i].0.name_spec() == n;
                if i < prefix.len() {
                    assert(prefix[i] == entries[i]);
                    assert(sub.contains(n));
                } else {
                    assert(entries[i] == e);
                }
            }
            assert(entries_map(emitted(entries, sel)).dom() =~= target);
        } else {
            assert(emitted(entries, sel) == emitted(prefix, sel));
            assert forall|n: Seq<char>| sub.contains(n) <==> target.contains(n) by {
                if sub.contains(n) {
                    let i = choose|i: int|
                        #![trigger prefix[i]]
                        0 <= i < prefix.len() && sel.contains(prefix[i].0)
                            && prefix[i].0.name_spec() == n;
                    assert(entries[i] == prefix[i]);
                }
                if target.contains(n) {
                    let i = choose|i: int|
                        #![trigger entries[i]]
                        0 <= i < entries.len() && sel.contains(entries[i].0)
                            && entries[i].0.name_spec() == n;
                    assert(entries[i].0 != e.0 || !sel.contains(e.0));
                    assert(i < prefix.len());
                    assert(prefix[i] == entries[i]);
                }
            }
            assert(entries_map(emitted(entries, sel)).dom() =~= target);
        }
    }
}

/// With a nonempty selection drawn over a record's own field enumeration,
/// the filtered document's keys are exactly the selected fields' canonical
/// names: none missing, none extra.
pub proof fn lemma_filtered_keys<F: ViewFields>(
    entries: Seq<(F, serde_json::Value)>,
    sel: Set<F>,
)
    requires
        !sel.is_empty(),
        entries.map_values(|e: (F, serde_json::Value)| e.0) == F::all_fields(),
    ensures
        entries_map(emitted(entries, sel)).dom() == sel.map(|v: F| v.name_spec()),
{
    let vars = entries.map_values(|e: (F, serde_json::Value)| e.0);
    F::lemma_enumeration();
    lemma_emitted_dom::<F>(entries, sel);
    let target = Set::new(
        |n: Seq<char>|
            exists|i: int|
                #![trigger entries[i]]
                0 <= i < entries.len() && sel.contains(entries[i].0) && entries[i].0.name_spec()
                    == n,
    );
    assert forall|n: Seq<char>| target.contains(n) implies sel.map(
        |v: F| v.name_spec(),
    ).contains(n) by {
        let i = choose|i: int|
            #![trigger entries[i]]
            0 <= i < entries.len() && sel.contains(entries[i].0) && entries[i].0.name_spec() == n;
        assert(sel.contains(entries[i].0) && n == entries[i].0.name_spec());
    }
    assert forall|n: Seq<char>| sel.map(|v: F| v.name_spec()).contains(n) implies target.contains(
        n,
    ) by {
        let v = choose|v: F| sel.contains(v) && n == v.name_spec();
        assert(F::all_fields().contains(v));
        let i = choose|i: int| 0 <= i < F::all_fields().len() && F::all_fields()[i] == v;
        assert(vars[i] == v);
        assert(entries[i].0 == v);
    }
    assert(entries_map(emitted(entries, sel)).dom() =~= sel.map(|v: F| v.name_spec()));
}

} // verus!
