//! Field enumeration and conversion: typed variants for a record's declared
//! fields, with a bijective mapping to canonical name strings.

use vstd::prelude::*;

use crate::error::Error;

verus! {

/// No element occurs twice.
pub open spec fn no_dups<A>(s: Seq<A>) -> bool {
    forall|i: int, j: int| 0 <= i < j < s.len() ==> s[i] != s[j]
}

/// Some variant of `F` carries this canonical name.
pub open spec fn resolvable<F: ViewFields>(name: Seq<char>) -> bool {
    exists|v: F| v.name_spec() == name
}

/// Every name before index `n` resolves to a variant.
pub open spec fn prefix_resolvable<F: ViewFields>(names: Seq<Seq<char>>, n: int) -> bool {
    forall|j: int| 0 <= j < n ==> resolvable::<F>(#[trigger] names[j])
}

/// The set of variants named by any of the given names.
pub open spec fn named_set<F: ViewFields>(names: Seq<Seq<char>>) -> Set<F> {
    Set::new(|v: F| exists|j: int| 0 <= j < names.len() && names[j] == v.name_spec())
}

/// Batch resolution failed fast: some name resolves to no variant, every name
/// before it resolves, and the error carries that first unresolved name.
pub open spec fn fails_at_first_unknown<F: ViewFields>(names: Seq<Seq<char>>, e: Error) -> bool {
    exists|i: int|
        #![trigger names[i]]
        {
            &&& 0 <= i < names.len()
            &&& !resolvable::<F>(names[i])
            &&& prefix_resolvable::<F>(names, i)
            &&& e matches Error::UnknownField(s) && s@ == names[i]
        }
}

/// The views of a sequence of borrowed strings.
pub open spec fn name_seqs(names: Seq<&str>) -> Seq<Seq<char>> {
    names.map_values(|t: &str| t@)
}

/// The segments of `s` between occurrences of the delimiter `d`, in order.
/// An empty input yields one empty segment, exactly as `str::split` behaves;
/// that empty segment then fails to parse as a field name downstream.
pub open spec fn split_on(s: Seq<char>, d: char) -> Seq<Seq<char>>
    decreases s.len(),
{
    if s.len() == 0 {
        seq![Seq::<char>::empty()]
    } else if s[0] == d {
        seq![Seq::<char>::empty()] + split_on(s.skip(1), d)
    } else {
        let rest = split_on(s.skip(1), d);
        seq![seq![s[0]] + rest[0]] + rest.skip(1)
    }
}

proof fn lemma_split_on_no_delim(s: Seq<char>, d: char)
    requires
        forall|j: int| 0 <= j < s.len() ==> s[j] != d,
    ensures
        split_on(s, d) == seq![s],
    decreases s.len(),
{
    if s.len() == 0 {
        assert(s =~= Seq::<char>::empty());
        assert(split_on(s, d) =~~= seq![s]);
    } else {
        lemma_split_on_no_delim(s.skip(1), d);
        let rest = split_on(s.skip(1), d);
        assert(rest[0] == s.skip(1));
        assert(seq![s[0]] + s.skip(1) =~= s);
        assert(rest.skip(1) =~~= Seq::<Seq<char>>::empty());
        assert(split_on(s, d) =~~= seq![s]);
    }
}

proof fn lemma_split_on_first_delim(s: Seq<char>, d: char, i: int)
    requires
        0 <= i < s.len(),
        s[i] == d,
        forall|j: int| 0 <= j < i ==> s[j] != d,
    ensures
        split_on(s, d) == seq![s.take(i)] + split_on(s.skip(i + 1), d),
    decreases i,
{
    if i == 0 {
        assert(s.take(0) =~= Seq::<char>::empty());
        assert(split_on(s, d) =~~= seq![s.take(0)] + split_on(s.skip(1), d));
    } else {
        let t = s.skip(1);
        assert(t[i - 1] == s[i]);
        assert(forall|j: int| 0 <= j < i - 1 ==> t[j] == s[j + 1] && t[j] != d);
        lemma_split_on_first_delim(t, d, i - 1);
        let rest = split_on(t, d);
        assert(t.take(i - 1) =~= s.subrange(1, i));
        assert(t.skip(i) =~= s.skip(i + 1));
        assert(rest == seq![s.subrange(1, i)] + split_on(s.skip(i + 1), d));
        assert(rest[0] == s.subrange(1, i));
        assert(rest.skip(1) =~~= split_on(s.skip(i + 1), d));
        assert(seq![s[0]] + s.subrange(1, i) =~= s.take(i));
        assert(split_on(s, d) =~~= seq![s.take(i)] + split_on(s.skip(i + 1), d));
    }
}

/// The index of the first occurrence of `d` in `s`, if any.
fn find_delim(s: &str, d: char) -> (r: Option<usize>)
    ensures
        match r {
            Some(i) => {
                &&& i < s@.len()
                &&& s@[i as int] == d
                &&& forall|j: int| 0 <= j < i ==> s@[j] != d
            },
            None => forall|j: int| 0 <= j < s@.len() ==> s@[j] != d,
        },
{
    let len = s.unicode_len();
    let mut i: usize = 0;
    while i < len
        invariant
            s@.len() == len,
            i <= len,
            forall|j: int| 0 <= j < i ==> s@[j] != d,
        decreases len - i,
    {
        if s.get_char(i) == d {
            return Some(i);
        }
        i = i + 1;
    }
    None
}

/// Split a string on a delimiter character, as `str::split` would.
pub(crate) fn split_str<'a>(s: &'a str, d: char) -> (r: Vec<&'a str>)
    ensures
        name_seqs(r@) == split_on(s@, d),
    decreases s@.len(),
{
    match find_delim(s, d) {
        None => {
            let mut r: Vec<&str> = Vec::new();
            r.push(s);
            proof {
                lemma_split_on_no_delim(s@, d);
                assert(name_seqs(r@) =~~= seq![s@]);
            }
            r
        },
        Some(i) => {
            let len = s.unicode_len();
            let head = s.substring_char(0, i);
            let tail = s.substring_char(i + 1, len);
            let mut r: Vec<&str> = Vec::new();
            r.push(head);
            let mut rest = split_str(tail, d);
            let ghost rest_view = rest@;
            r.append(&mut rest);
            proof {
                lemma_split_on_first_delim(s@, d, i as int);
                assert(head@ == s@.take(i as int));
                assert(tail@ == s@.skip(i as int + 1));
                assert(r@ == seq![head] + rest_view);
                assert(name_seqs(r@) =~~= seq![head@] + name_seqs(rest_view));
                assert(name_seqs(r@) =~~= split_on(s@, d));
            }
            r
        },
    }
}

/// The capability every record's field-enumeration type provides: a closed
/// set of variants, one per declared field, each carrying a canonical name,
/// the mapping from variant to name a bijection.
pub trait ViewFields: Sized + Copy {
    /// The canonical name attached to this variant.
    spec fn name_spec(self) -> Seq<char>;

    /// Every variant of the enumeration, in the record's declared field
    /// order.
    spec fn all_fields() -> Seq<Self>;

    /// The enumeration invariant: `all_fields` lists every variant exactly
    /// once, and no two variants share a name.
    proof fn lemma_enumeration()
        ensures
            forall|v: Self| #[trigger] Self::all_fields().contains(v),
            forall|a: Self, b: Self| a.name_spec() == b.name_spec() ==> a == b,
            no_dups(Self::all_fields()),
    ;

    /// The canonical name of this variant. Total; never fails.
    fn as_str(&self) -> (r: &'static str)
        ensures
            r@ == self.name_spec(),
    ;

    /// Resolve a name to its variant. Matching is exact: no case folding, no
    /// trimming. An unmatched name fails with `UnknownField` carrying the
    /// offending string.
    fn from_str(name: &str) -> (r: Result<Self, Error>)
        ensures
            match r {
                Ok(v) => v.name_spec() == name@,
                Err(e) => {
                    &&& forall|v: Self| v.name_spec() != name@
                    &&& e matches Error::UnknownField(s) && s@ == name@
                },
            },
    ;

    /// Equality test on variants.
    fn same_field(&self, other: &Self) -> (r: bool)
        ensures
            r == (*self == *other),
    ;
}

/// Append a variant unless it is already present, keeping the selection free
/// of duplicates while its set of elements gains the variant.
pub(crate) fn push_unique<F: ViewFields>(fields: &mut Vec<F>, f: F)
    requires
        no_dups(old(fields)@),
    ensures
        no_dups(final(fields)@),
        final(fields)@.to_set() == old(fields)@.to_set().insert(f),
{
    let mut i: usize = 0;
    while i < fields.len()
        invariant
            i <= fields@.len(),
            fields@ == old(fields)@,
            no_dups(fields@),
            forall|j: int| 0 <= j < i ==> fields@[j] != f,
        decreases fields@.len() - i,
    {
        if fields[i].same_field(&f) {
            proof {
                assert(fields@.to_set().contains(f));
                assert(fields@.to_set() =~= old(fields)@.to_set().insert(f));
            }
            return ;
        }
        i = i + 1;
    }
    fields.push(f);
    proof {
        broadcast use vstd::prelude::Seq::lemma_push_to_set_commute;

        assert(forall|j: int| 0 <= j < old(fields)@.len() ==> old(fields)@[j] != f);
        assert(fields@ == old(fields)@.push(f));
        assert(fields@.to_set() =~= old(fields)@.to_set().insert(f));
    }
}

/// Resolve each name in turn through `ViewFields::from_str`, failing fast on
/// the first unmatched name and discarding any partial result. On success the
/// resolved variants come back without duplicates.
pub fn from_str_iter<'a, F: ViewFields>(names: &Vec<&'a str>) -> (r: Result<Vec<F>, Error>)
    ensures
        match r {
            Ok(fs) => {
                &&& prefix_resolvable::<F>(name_seqs(names@), names@.len() as int)
                &&& no_dups(fs@)
                &&& fs@.to_set() == named_set::<F>(name_seqs(names@))
            },
            Err(e) => fails_at_first_unknown::<F>(name_seqs(names@), e),
        },
{
    let ghost seqs = name_seqs(names@);
    let mut acc: Vec<F> = Vec::new();
    let mut i: usize = 0;
    let n = names.len();
    while i < n
        invariant
            n == names@.len(),
            i <= names@.len(),
            seqs == name_seqs(names@),
            prefix_resolvable::<F>(seqs, i as int),
            no_dups(acc@),
            acc@.to_set() == named_set::<F>(seqs.take(i as int)),
        decreases names@.len() - i,
    {
        proof {
            assert(seqs[i as int] == names@[i as int]@);
        }
        match F::from_str(names[i]) {
            Ok(v) => {
                push_unique(&mut acc, v);
                proof {
                    F::lemma_enumeration();
                    assert(resolvable::<F>(seqs[i as int]));
                    assert(named_set::<F>(seqs.take(i + 1)) =~= named_set::<F>(
                        seqs.take(i as int),
                    ).insert(v)) by {
                        assert(forall|j: int| 0 <= j < i + 1 ==> seqs.take(i + 1)[j] == seqs[j]);
                        assert(seqs.take(i + 1)[i as int] == v.name_spec());
                    }
                }
            },
            Err(e) => {
                proof {
                    assert(!resolvable::<F>(seqs[i as int]));
                    assert(fails_at_first_unknown::<F>(seqs, e));
                }
                return Err(e);
            },
        }
        i = i + 1;
    }
    proof {
        assert(seqs.take(names@.len() as int) =~= seqs);
    }
    Ok(acc)
}

/// Split on commas, then resolve each segment as `from_str_iter` does. An
/// empty input holds one empty segment, which fails as an unknown field.
pub fn from_str_split<F: ViewFields>(names: &str) -> (r: Result<Vec<F>, Error>)
    ensures
        match r {
            Ok(fs) => {
                &&& prefix_resolvable::<F>(split_on(names@, ','), split_on(names@, ',').len() as int)
                &&& no_dups(fs@)
                &&& fs@.to_set() == named_set::<F>(split_on(names@, ','))
            },
            Err(e) => fails_at_first_unknown::<F>(split_on(names@, ','), e),
        },
{
    let parts = split_str(names, ',');
    from_str_iter::<F>(&parts)
}

/// A selection built from canonical names equals the set of the typed
/// variants those names denote, whatever order the names come in: a name
/// list that spells out `vs` denotes exactly the variants of `vs`.
pub proof fn lemma_named_set_of_typed<F: ViewFields>(names: Seq<Seq<char>>, vs: Seq<F>)
    requires
        names == vs.map_values(|v: F| v.name_spec()),
    ensures
        named_set::<F>(names) == vs.to_set(),
{
    F::lemma_enumeration();
    assert forall|x: F| named_set::<F>(names).contains(x) implies vs.to_set().contains(x) by {
        let j = choose|j: int| 0 <= j < names.len() && names[j] == x.name_spec();
        assert(vs[j].name_spec() == x.name_spec());
        assert(vs[j] == x);
    }
    assert forall|x: F| vs.to_set().contains(x) implies named_set::<F>(names).contains(x) by {
        let j = choose|j: int| 0 <= j < vs.len() && vs[j] == x;
        assert(names[j] == x.name_spec());
    }
    assert(named_set::<F>(names) =~= vs.to_set());
}

/// Round trip: whatever `from_str` returns for a variant's own canonical
/// name is that variant itself. The premise restates `from_str`'s contract
/// for the name `v.name_spec()`; the bijection invariant forces the result.
pub proof fn lemma_parse_name_round_trip<F: ViewFields>(v: F, r: Result<F, Error>)
    requires
        match r {
            Ok(w) => w.name_spec() == v.name_spec(),
            Err(_) => forall|u: F| u.name_spec() != v.name_spec(),
        },
    ensures
        r == Ok::<F, Error>(v),
{
    F::lemma_enumeration();
    match r {
        Ok(w) => {
            assert(w == v);
        },
        Err(_) => {
            assert(v.name_spec() == v.name_spec());
            assert(false);
        },
    }
}

/// A value a selection can be built from: either an already-typed variant or
/// a string name resolved through `from_str`.
pub trait IntoField<VF: ViewFields>: Sized + Copy {
    /// What this value resolves to: the variant, or the offending name when
    /// no variant matches.
    spec fn resolved(self) -> Result<VF, Seq<char>>;

    /// Resolve this value to a field variant.
    fn into_field(self) -> (r: Result<VF, Error>)
        ensures
            match self.resolved() {
                Ok(v) => r == Ok::<VF, Error>(v),
                Err(n) => {
                    &&& r matches Err(e)
                    &&& e matches Error::UnknownField(s) && s@ == n
                },
            },
    ;
}

/// A typed variant resolves to itself; this never fails.
impl<VF: ViewFields> IntoField<VF> for VF {
    open spec fn resolved(self) -> Result<VF, Seq<char>> {
        Ok(self)
    }

    fn into_field(self) -> (r: Result<VF, Error>) {
        Ok(self)
    }
}

/// A string resolves through `ViewFields::from_str`.
impl<VF: ViewFields> IntoField<VF> for &str {
    open spec fn resolved(self) -> Result<VF, Seq<char>> {
        if resolvable::<VF>(self@) {
            Ok(choose|v: VF| v.name_spec() == self@)
        } else {
            Err(self@)
        }
    }

    fn into_field(self) -> (r: Result<VF, Error>) {
        let r = VF::from_str(self);
        proof {
            VF::lemma_enumeration();
        }
        r
    }
}

} // verus!
