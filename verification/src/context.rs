//! The view context: a record reference bound to an owned selection of field
//! variants, with builder operations and the filtering serialization walk.

use vstd::prelude::*;

use crate::error::Error;
use crate::fields::push_unique;
use crate::fields::no_dups;
use crate::fields::IntoField;
use crate::fields::ViewFields;
use crate::ser::emitted;
use crate::ser::entries_map;
use crate::ser::json_object;
use crate::ser::obj_of;

verus! {

/// Every value resolves to a variant.
pub open spec fn all_resolved<F: ViewFields, IF: IntoField<F>>(s: Seq<IF>) -> bool {
    forall|i: int| 0 <= i < s.len() ==> (#[trigger] s[i].resolved()) is Ok
}

/// The set of variants the values resolve to.
pub open spec fn resolved_set<F: ViewFields, IF: IntoField<F>>(s: Seq<IF>) -> Set<F> {
    Set::new(
        |v: F| exists|i: int| 0 <= i < s.len() && (#[trigger] s[i].resolved()) == Ok::<F, Seq<char>>(v),
    )
}

/// Resolution failed fast: some value resolves to no variant, every value
/// before it resolves, and the error carries that first offending name.
pub open spec fn first_unresolved<F: ViewFields, IF: IntoField<F>>(s: Seq<IF>, e: Error) -> bool {
    exists|i: int|
        #![trigger s[i]]
        {
            &&& 0 <= i < s.len()
            &&& s[i].resolved() is Err
            &&& forall|j: int| 0 <= j < i ==> (#[trigger] s[j].resolved()) is Ok
            &&& s[i].resolved() matches Err(n) && (e matches Error::UnknownField(m) && m@ == n)
        }
}

/// Typed variants resolve to themselves, so the selection `with_fields`
/// builds from typed variants is exactly their set — the same set a name
/// list denoting them would build.
pub proof fn lemma_typed_resolved_set<F: ViewFields>(vs: Seq<F>)
    ensures
        resolved_set::<F, F>(vs) == vs.to_set(),
{
    assert forall|x: F|
        resolved_set::<F, F>(vs).contains(x) <==> vs.to_set().contains(x) by {
        if vs.contains(x) {
            let j = choose|j: int| 0 <= j < vs.len() && vs[j] == x;
            assert(vs[j].resolved() == Ok::<F, Seq<char>>(x));
        }
    }
    assert(resolved_set::<F, F>(vs) =~= vs.to_set());
}

/// Resolve a batch of field-like values, failing fast on the first value
/// that resolves to no variant; any partial result is discarded. On success
/// the variants come back without duplicates.
pub(crate) fn resolve_fields<F: ViewFields, IF: IntoField<F>>(fields: Vec<IF>) -> (r: Result<
    Vec<F>,
    Error,
>)
    ensures
        match r {
            Ok(fs) => {
                &&& all_resolved::<F, IF>(fields@)
                &&& no_dups(fs@)
                &&& fs@.to_set() == resolved_set::<F, IF>(fields@)
            },
            Err(e) => first_unresolved::<F, IF>(fields@, e),
        },
{
    let mut acc: Vec<F> = Vec::new();
    let mut i: usize = 0;
    let n = fields.len();
    while i < n
        invariant
            n == fields@.len(),
            i <= fields@.len(),
            forall|j: int| 0 <= j < i ==> (#[trigger] fields@[j].resolved()) is Ok,
            no_dups(acc@),
            acc@.to_set() == resolved_set::<F, IF>(fields@.take(i as int)),
        decreases fields@.len() - i,
    {
        let f = fields[i];
        match f.into_field() {
            Ok(v) => {
                push_unique(&mut acc, v);
                proof {
                    assert(fields@[i as int].resolved() == Ok::<F, Seq<char>>(v));
                    assert(resolved_set::<F, IF>(fields@.take(i + 1)) =~= resolved_set::<F, IF>(
                        fields@.take(i as int),
                    ).insert(v)) by {
                        assert(forall|j: int|
                            0 <= j < i + 1 ==> fields@.take(i + 1)[j] == #[trigger] fields@[j]);
                        assert(forall|j: int|
                            0 <= j < i ==> fields@.take(i as int)[j] == #[trigger] fields@[j]);
                    }
                }
            },
            Err(e) => {
                proof {
                    assert(fields@[i as int].resolved() is Err);
                    assert(first_unresolved::<F, IF>(fields@, e));
                }
                return Err(e);
            },
        }
        i = i + 1;
    }
    proof {
        assert(fields@.take(fields@.len() as int) =~= fields@);
    }
    Ok(acc)
}

/// A transient binding of a borrowed record to an owned selection of its
/// field variants. Built by [`Viewable::as_view`]; narrowed or widened by the
/// builder operations; consumed by one serialization.
pub struct ViewContext<'v, T, F: ViewFields> {
    pub(crate) inner: &'v T,
    pub(crate) fields: Vec<F>,
}

/// A record with a fixed, enumerable set of named fields, each of which it
/// can emit as an encoded value.
pub trait Viewable: Sized {
    /// The field-enumeration type tied to this record type. Distinct record
    /// types get distinct enumerations, so a selection cannot mix fields of
    /// two records.
    type Fields: ViewFields;

    /// The record's field-by-field emission: one pair per declared field, in
    /// declared order — the field's variant and the field's value encoded by
    /// the record's own rules. The filtering walk never re-encodes these
    /// values.
    fn entries(&self) -> (r: Vec<(Self::Fields, serde_json::Value)>)
        ensures
            r@.map_values(|e: (Self::Fields, serde_json::Value)| e.0)
                == Self::Fields::all_fields(),
    ;

    /// Wrap the record in a view context whose selection starts empty — the
    /// select-all sentinel.
    fn as_view<'v>(&'v self) -> (r: ViewContext<'v, Self, Self::Fields>)
        ensures
            r.record() == *self,
            r.selection() =~= Set::<Self::Fields>::empty(),
            r.wf(),
    {
        let r = ViewContext { inner: self, fields: Vec::new() };
        proof {
            assert(r.selection() =~= Set::<Self::Fields>::empty());
        }
        r
    }
}

impl<'v, T, F: ViewFields> ViewContext<'v, T, F> {
    /// The record this context borrows.
    pub closed spec fn record(self) -> T {
        *self.inner
    }

    /// The selected field variants, as a set. Empty means "no filtering".
    pub closed spec fn selection(self) -> Set<F> {
        self.fields@.to_set()
    }

    /// The selection holds each variant at most once.
    pub closed spec fn wf(self) -> bool {
        no_dups(self.fields@)
    }

    /// Replace the selection wholesale. Any value that resolves to no
    /// variant aborts the whole operation with its name's error; the
    /// replacement is atomic, never partial.
    pub fn with_fields<IF: IntoField<F>>(self, fields: Vec<IF>) -> (r: Result<Self, Error>)
        ensures
            match r {
                Ok(c) => {
                    &&& all_resolved::<F, IF>(fields@)
                    &&& c.record() == self.record()
                    &&& c.selection() == resolved_set::<F, IF>(fields@)
                    &&& c.wf()
                },
                Err(e) => first_unresolved::<F, IF>(fields@, e),
            },
    {
        match resolve_fields::<F, IF>(fields) {
            Ok(sel) => Ok(ViewContext { inner: self.inner, fields: sel }),
            Err(e) => Err(e),
        }
    }

    /// Union the resolved variants into the existing selection. Resolution
    /// is all-or-nothing: on the first unresolved name the operation aborts
    /// with that name's error and nothing is added.
    pub fn add_fields<IF: IntoField<F>>(self, fields: Vec<IF>) -> (r: Result<Self, Error>)
        requires
            self.wf(),
        ensures
            match r {
                Ok(c) => {
                    &&& all_resolved::<F, IF>(fields@)
                    &&& c.record() == self.record()
                    &&& c.selection() == self.selection().union(
                        resolved_set::<F, IF>(fields@),
                    )
                    &&& c.wf()
                },
                Err(e) => first_unresolved::<F, IF>(fields@, e),
            },
    {
        let ghost old_sel = self.selection();
        match resolve_fields::<F, IF>(fields) {
            Ok(vs) => {
                let ViewContext { inner, fields: mut sel } = self;
                let mut k: usize = 0;
                let m = vs.len();
                while k < m
                    invariant
                        m == vs@.len(),
                        k <= vs@.len(),
                        no_dups(sel@),
                        sel@.to_set() == old_sel.union(vs@.take(k as int).to_set()),
                    decreases vs@.len() - k,
                {
                    push_unique(&mut sel, vs[k]);
                    proof {
                        broadcast use vstd::prelude::Seq::lemma_push_to_set_commute;

                        assert(vs@.take(k + 1) =~= vs@.take(k as int).push(vs@[k as int]));
                        assert(sel@.to_set() =~= old_sel.union(vs@.take(k + 1).to_set()));
                    }
                    k = k + 1;
                }
                proof {
                    assert(vs@.take(vs@.len() as int) =~= vs@);
                }
                Ok(ViewContext { inner, fields: sel })
            },
            Err(e) => Err(e),
        }
    }

    /// Add one field, resolved the same way `add_fields` resolves each
    /// value.
    pub fn add_field<IF: IntoField<F>>(self, field: IF) -> (r: Result<Self, Error>)
        requires
            self.wf(),
        ensures
            match r {
                Ok(c) => {
                    &&& field.resolved() matches Ok(v) && c.selection() == self.selection().insert(
                        v,
                    )
                    &&& c.record() == self.record()
                    &&& c.wf()
                },
                Err(e) => {
                    &&& field.resolved() matches Err(n) && (e matches Error::UnknownField(m)
                        && m@ == n)
                },
            },
    {
        match field.into_field() {
            Ok(v) => {
                let ViewContext { inner, fields: mut sel } = self;
                push_unique(&mut sel, v);
                Ok(ViewContext { inner, fields: sel })
            },
            Err(e) => Err(e),
        }
    }

    /// Is this variant in the selection?
    fn is_selected(&self, f: &F) -> (r: bool)
        ensures
            r == self.selection().contains(*f),
    {
        let mut i: usize = 0;
        let n = self.fields.len();
        while i < n
            invariant
                n == self.fields@.len(),
                i <= self.fields@.len(),
                forall|j: int| 0 <= j < i ==> self.fields@[j] != *f,
            decreases self.fields@.len() - i,
        {
            if self.fields[i].same_field(f) {
                proof {
                    assert(self.fields@.to_set().contains(*f));
                }
                return true;
            }
            i = i + 1;
        }
        proof {
            assert(!self.fields@.contains(*f));
        }
        false
    }

    /// The filtering serialization adapter: walk the given entries in order,
    /// keep exactly the included ones, and build the document holding them —
    /// each included value passed through unchanged, each excluded field
    /// skipped entirely.
    pub fn filtered_object(&self, entries: Vec<(F, serde_json::Value)>) -> (r:
        serde_json::Value)
        ensures
            r == obj_of(entries_map(emitted(entries@, self.selection()))),
    {
        let ghost all = entries@;
        let ghost sel = self.selection();
        let select_all = self.fields.len() == 0;
        proof {
            if select_all {
                assert(sel =~= Set::<F>::empty());
            } else {
                assert(self.fields@.to_set().contains(self.fields@[0]));
                assert(!sel.is_empty());
            }
        }
        let mut rem = entries;
        let mut pairs: Vec<(String, serde_json::Value)> = Vec::new();
        while rem.len() > 0
            invariant
                all.len() >= rem@.len(),
                rem@ == all.skip(all.len() - rem@.len()),
                pairs@.map_values(|p: (String, serde_json::Value)| (p.0@, p.1)) == emitted(
                    all.take(all.len() - rem@.len()),
                    sel,
                ),
                sel == self.selection(),
                select_all == sel.is_empty(),
            decreases rem@.len(),
        {
            let ghost k = all.len() - rem@.len();
            let ghost prev = pairs@;
            let e = rem.remove(0);
            proof {
                assert(all.skip(k).len() > 0);
                assert(e == all.skip(k)[0]);
                assert(e == all[k]);
                assert(all.skip(k).remove(0) =~= all.skip(k + 1));
            }
            let included = select_all || self.is_selected(&e.0);
            if included {
                let name = e.0.as_str();
                pairs.push((name.to_owned(), e.1));
            }
            proof {
                let f = |p: (String, serde_json::Value)| (p.0@, p.1);
                assert(all.take(k + 1).drop_last() =~= all.take(k));
                assert(all.take(k + 1).last() == all[k]);
                if included {
                    assert(pairs@ == prev.push(pairs@.last()));
                    assert(pairs@.last().0@ == all[k].0.name_spec());
                    assert(pairs@.last().1 == all[k].1);
                    assert(pairs@.map_values(f) =~= prev.map_values(f).push(
                        (all[k].0.name_spec(), all[k].1),
                    ));
                    assert(pairs@.map_values(f) == emitted(all.take(k + 1), sel));
                } else {
                    assert(pairs@.map_values(f) == emitted(all.take(k + 1), sel));
                }
            }
        }
        proof {
            assert(all.take(all.len() as int) =~= all);
        }
        json_object(pairs)
    }

}

impl<'v, T: Viewable> ViewContext<'v, T, <T as Viewable>::Fields> {
    /// Serialize the view: ask the record for its field-by-field emission
    /// and keep exactly the included fields, in the record's declared order,
    /// each value encoded as the record itself encodes it.
    pub fn to_value(&self) -> (r: serde_json::Value)
        ensures
            exists|es: Seq<(T::Fields, serde_json::Value)>|
                #![trigger emitted(es, self.selection())]
                {
                    &&& es.map_values(|e: (T::Fields, serde_json::Value)| e.0)
                        == T::Fields::all_fields()
                    &&& r == obj_of(entries_map(emitted(es, self.selection())))
                },
    {
        let entries = self.inner.entries();
        let ghost es = entries@;
        let r = self.filtered_object(entries);
        proof {
            assert(es.map_values(|e: (T::Fields, serde_json::Value)| e.0)
                == T::Fields::all_fields() && r == obj_of(entries_map(emitted(es, self.selection()))));
        }
        r
    }
}

} // verus!
