use vstd::prelude::*;

use core::marker::PhantomData;

use crate::utils::custom_map::{
    lemma_seq_remove_elems_sub, lemma_seq_remove_keys_sub, seq_has, seq_has_key, seq_key_val,
    seq_keys_distinct, seq_remove_elems, seq_remove_keys, CustomMap, CustomSet, MapKey,
};

verus! {

/// The hyphenated text form of a 128-bit identifier.  A pure function of the
/// value; produced by the uuid crate.
pub uninterp spec fn uuid_text(id: u128) -> Seq<char>;

/// The identifier a piece of text parses to, if any.  A pure function of the
/// text; produced by the uuid crate.
pub uninterp spec fn uuid_parse(s: Seq<char>) -> Option<u128>;

/// Relies on uuid::Uuid::new_v4: draws a fresh random identifier.  Nothing is
/// promised of the value.
#[verifier::external_body]
fn fresh_uuid_u128() -> u128 {
    uuid::Uuid::new_v4().as_u128()
}

/// Relies on uuid::Uuid's hyphenated text form (its canonical Display output),
/// which depends on the 128-bit value alone.
#[verifier::external_body]
fn uuid_u128_to_string(id: u128) -> (r: String)
    ensures
        r@ == uuid_text(id),
{
    uuid::Uuid::from_u128(id).hyphenated().to_string()
}

/// Relies on uuid::Uuid::parse_str, whose result depends on the text alone.
#[verifier::external_body]
fn uuid_u128_from_str(s: &str) -> (r: Option<u128>)
    ensures
        r == uuid_parse(s@),
{
    match uuid::Uuid::parse_str(s) {
        Ok(u) => Some(u.as_u128()),
        Err(_) => None,
    }
}

/// The store left behind by one full visitation pass over the entries `s`,
/// where `res[i]` is the outcome of visiting entry `i`: the value the callback
/// left behind, and whether it flagged the entry for removal.  Flagged entries
/// are dropped only after the whole pass; the others keep their order.
pub open spec fn apply_visit<K, T>(s: Seq<(K, T)>, res: Seq<(T, bool)>) -> Seq<(K, T)>
    decreases s.len(),
{
    if s.len() == 0 {
        Seq::empty()
    } else {
        let rest = apply_visit(s.drop_last(), res.drop_last());
        if res.last().1 {
            rest
        } else {
            rest.push((s.last().0, res.last().0))
        }
    }
}

/// How many visit outcomes flagged their entry for removal.
pub open spec fn count_removed<T>(res: Seq<(T, bool)>) -> int
    decreases res.len(),
{
    if res.len() == 0 {
        0
    } else {
        count_removed(res.drop_last()) + if res.last().1 {
            1int
        } else {
            0int
        }
    }
}

/// A visitation pass never invents keys, and keeps keys distinct.
pub proof fn lemma_apply_visit_keys<K, T>(s: Seq<(K, T)>, res: Seq<(T, bool)>)
    ensures
        forall|k: K| #[trigger] seq_has_key(apply_visit(s, res), k) ==> seq_has_key(s, k),
        seq_keys_distinct(s) ==> seq_keys_distinct(apply_visit(s, res)),
    decreases s.len(),
{
    if s.len() == 0 {
    } else {
        lemma_apply_visit_keys(s.drop_last(), res.drop_last());
        let rest = apply_visit(s.drop_last(), res.drop_last());
        assert forall|k: K| #[trigger] seq_has_key(s.drop_last(), k) implies seq_has_key(
            s,
            k,
        ) by {
            let i = choose|i: int| 0 <= i < s.drop_last().len() && s.drop_last()[i].0 == k;
            assert(s[i].0 == k);
        }
        if res.last().1 {
        } else {
            let result = rest.push((s.last().0, res.last().0));
            assert forall|k: K| #[trigger] seq_has_key(result, k) implies seq_has_key(s, k) by {
                let i = choose|i: int| 0 <= i < result.len() && result[i].0 == k;
                if i < rest.len() {
                    assert(rest[i].0 == k);
                    assert(seq_has_key(rest, k));
                } else {
                    assert(s[s.len() - 1].0 == k);
                }
            }
            if seq_keys_distinct(s) {
                assert(seq_keys_distinct(s.drop_last()));
                assert(!seq_has_key(s.drop_last(), s.last().0)) by {
                    if seq_has_key(s.drop_last(), s.last().0) {
                        let i = choose|i: int|
                            0 <= i < s.drop_last().len() && s.drop_last()[i].0 == s.last().0;
                        assert(s[i].0 == s[s.len() - 1].0);
                    }
                }
                assert forall|i: int, j: int| 0 <= i < j < result.len() implies result[i].0
                    != result[j].0 by {
                    if j < rest.len() {
                    } else {
                        if rest[i].0 == s.last().0 {
                            assert(seq_has_key(rest, rest[i].0));
                            assert(seq_has_key(s.drop_last(), s.last().0));
                        }
                    }
                }
            }
        }
    }
}

/// Entry values of `s` with the value under `k` replaced by `v`; keys and
/// order unchanged.
pub open spec fn update_key<K, T>(s: Seq<(K, T)>, k: K, v: T) -> Seq<(K, T)> {
    s.map_values(
        |p: (K, T)|
            if p.0 == k {
                (p.0, v)
            } else {
                p
            },
    )
}

/// Whether the outcome of visiting one identity of a restricted pass prunes
/// that identity: an identity absent from the owning store is pruned, and so
/// is one whose callback flagged it.
pub open spec fn prunes<T>(o: Option<(T, bool)>) -> bool {
    match o {
        None => true,
        Some(rv) => rv.1,
    }
}

/// The owning store after the value updates of a restricted pass over the
/// identities `refs` with visit outcomes `res`, before any removal.
pub open spec fn visit_vals<K, T>(
    s: Seq<(K, T)>,
    refs: Seq<K>,
    res: Seq<Option<(T, bool)>>,
) -> Seq<(K, T)>
    decreases refs.len(),
{
    if refs.len() == 0 {
        s
    } else {
        let prev = visit_vals(s, refs.drop_last(), res.drop_last());
        match res.last() {
            Some(rv) => update_key(prev, refs.last(), rv.0),
            None => prev,
        }
    }
}

/// The identities a restricted pass removes from both the owning store and the
/// derived index, in index order.
pub open spec fn pruned_refs<K, T>(refs: Seq<K>, res: Seq<Option<(T, bool)>>) -> Seq<K>
    decreases refs.len(),
{
    if refs.len() == 0 {
        Seq::empty()
    } else {
        let rest = pruned_refs(refs.drop_last(), res.drop_last());
        if prunes(res.last()) {
            rest.push(refs.last())
        } else {
            rest
        }
    }
}

/// Every pruned identity comes from the index it was pruned out of.
pub proof fn lemma_pruned_refs_sub<K, T>(refs: Seq<K>, res: Seq<Option<(T, bool)>>)
    ensures
        forall|k: K| #[trigger] seq_has(pruned_refs(refs, res), k) ==> seq_has(refs, k),
    decreases refs.len(),
{
    if refs.len() == 0 {
    } else {
        lemma_pruned_refs_sub(refs.drop_last(), res.drop_last());
        let rest = pruned_refs(refs.drop_last(), res.drop_last());
        assert forall|k: K| #[trigger] seq_has(refs.drop_last(), k) implies seq_has(refs, k) by {
            let i = choose|i: int| 0 <= i < refs.drop_last().len() && refs.drop_last()[i] == k;
            assert(refs[i] == k);
        }
        if prunes(res.last()) {
            let result = rest.push(refs.last());
            assert forall|k: K| #[trigger] seq_has(result, k) implies seq_has(refs, k) by {
                let i = choose|i: int| 0 <= i < result.len() && result[i] == k;
                if i < rest.len() {
                    assert(rest[i] == k);
                    assert(seq_has(rest, k));
                } else {
                    assert(refs[refs.len() - 1] == k);
                }
            }
        }
    }
}

/// Value updates keep the length, the keys and the order of a store; entries
/// whose key is not visited are untouched.
pub proof fn lemma_visit_vals_frame<K, T>(s: Seq<(K, T)>, refs: Seq<K>, res: Seq<Option<(T, bool)>>)
    ensures
        visit_vals(s, refs, res).len() == s.len(),
        forall|j: int| 0 <= j < s.len() ==> (#[trigger] visit_vals(s, refs, res)[j]).0 == s[j].0,
        forall|j: int|
            0 <= j < s.len() && !seq_has(refs, s[j].0) ==> visit_vals(s, refs, res)[j] == s[j],
    decreases refs.len(),
{
    if refs.len() == 0 {
    } else {
        lemma_visit_vals_frame(s, refs.drop_last(), res.drop_last());
        let prev = visit_vals(s, refs.drop_last(), res.drop_last());
        assert forall|j: int| 0 <= j < s.len() && !seq_has(refs, s[j].0) implies visit_vals(
            s,
            refs,
            res,
        )[j] == s[j] by {
            assert(!seq_has(refs.drop_last(), s[j].0)) by {
                if seq_has(refs.drop_last(), s[j].0) {
                    let i = choose|i: int|
                        0 <= i < refs.drop_last().len() && refs.drop_last()[i] == s[j].0;
                    assert(refs[i] == s[j].0);
                }
            }
            assert(s[j].0 != refs.last()) by {
                assert(refs[refs.len() - 1] == refs.last());
            }
        }
    }
}

/// The identities of `refs`, in order, that key an entry of `s`.
pub open spec fn present_refs<K, T>(refs: Seq<K>, s: Seq<(K, T)>) -> Seq<K>
    decreases refs.len(),
{
    if refs.len() == 0 {
        Seq::empty()
    } else {
        let rest = present_refs(refs.drop_last(), s);
        if seq_has_key(s, refs.last()) {
            rest.push(refs.last())
        } else {
            rest
        }
    }
}

/// With distinct keys, pushing an entry with a new key leaves every other
/// key's value where it was.
proof fn lemma_key_val_push<K, T>(s: Seq<(K, T)>, p: (K, T), k: K)
    requires
        seq_keys_distinct(s.push(p)),
        seq_has_key(s, k),
        k != p.0,
    ensures
        seq_has_key(s.push(p), k),
        seq_key_val(s.push(p), k) == seq_key_val(s, k),
{
    let i = choose|i: int| 0 <= i < s.len() && s[i].0 == k;
    assert(s.push(p)[i].0 == k);
    assert(seq_has_key(s.push(p), k));
    let j = choose|j: int| 0 <= j < s.push(p).len() && s.push(p)[j].0 == k;
    assert(j == i);
    assert(seq_key_val(s.push(p), k) == s[i].1);
    let i2 = choose|i2: int| 0 <= i2 < s.len() && s[i2].0 == k;
    assert(s.push(p)[i2].0 == k);
    assert(i2 == i);
}

/// Identity stability under a full visitation pass that keeps every value
/// unchanged: exactly the flagged entries leave; every surviving reference
/// still resolves to its original value; every flagged reference no longer
/// resolves.  (A reference, once absent, stays absent under later insertions
/// of other references: see [`lemma_absent_after_insert`].)
pub proof fn lemma_identity_stability<K, T>(s: Seq<(K, T)>, res: Seq<(T, bool)>)
    requires
        seq_keys_distinct(s),
        res.len() == s.len(),
        forall|i: int| 0 <= i < s.len() ==> (#[trigger] res[i]).0 == s[i].1,
    ensures
        apply_visit(s, res).len() == s.len() - count_removed(res),
        forall|i: int|
            0 <= i < s.len() && !(#[trigger] res[i]).1 ==> seq_has_key(apply_visit(s, res), s[i].0)
                && seq_key_val(apply_visit(s, res), s[i].0) == s[i].1,
        forall|i: int|
            0 <= i < s.len() && (#[trigger] res[i]).1 ==> !seq_has_key(
                apply_visit(s, res),
                s[i].0,
            ),
    decreases s.len(),
{
    if s.len() == 0 {
    } else {
        let s1 = s.drop_last();
        let r1 = res.drop_last();
        assert(seq_keys_distinct(s1));
        assert forall|i: int| 0 <= i < s1.len() implies (#[trigger] r1[i]).0 == s1[i].1 by {
            assert(res[i] == r1[i]);
            assert(s[i] == s1[i]);
        }
        lemma_identity_stability(s1, r1);
        lemma_apply_visit_keys(s1, r1);
        lemma_apply_visit_keys(s, res);
        let rest = apply_visit(s1, r1);
        assert(!seq_has_key(s1, s.last().0)) by {
            if seq_has_key(s1, s.last().0) {
                let i = choose|i: int| 0 <= i < s1.len() && s1[i].0 == s.last().0;
                assert(s[i].0 == s[s.len() - 1].0);
            }
        }
        assert(!seq_has_key(rest, s.last().0));
        if res.last().1 {
            assert(apply_visit(s, res) == rest);
            assert(count_removed(res) == count_removed(r1) + 1);
            assert forall|i: int|
                0 <= i < s.len() && !(#[trigger] res[i]).1 implies seq_has_key(
                apply_visit(s, res),
                s[i].0,
            ) && seq_key_val(apply_visit(s, res), s[i].0) == s[i].1 by {
                assert(i < s1.len());
                assert(r1[i] == res[i] && s1[i] == s[i]);
            }
            assert forall|i: int|
                0 <= i < s.len() && (#[trigger] res[i]).1 implies !seq_has_key(
                apply_visit(s, res),
                s[i].0,
            ) by {
                if i < s1.len() {
                    assert(r1[i] == res[i] && s1[i] == s[i]);
                }
            }
        } else {
            let p = (s.last().0, res.last().0);
            assert(apply_visit(s, res) == rest.push(p));
            assert(res.last().0 == s.last().1);
            assert(count_removed(res) == count_removed(r1));
            assert(seq_keys_distinct(rest.push(p)));
            assert forall|i: int|
                0 <= i < s.len() && !(#[trigger] res[i]).1 implies seq_has_key(
                apply_visit(s, res),
                s[i].0,
            ) && seq_key_val(apply_visit(s, res), s[i].0) == s[i].1 by {
                if i < s1.len() {
                    assert(r1[i] == res[i] && s1[i] == s[i]);
                    assert(s[i].0 != p.0) by {
                        assert(s[i].0 == s1[i].0);
                        if s1[i].0 == s.last().0 {
                            assert(seq_has_key(s1, s.last().0));
                        }
                    }
                    lemma_key_val_push(rest, p, s[i].0);
                } else {
                    assert(s[i] == s.last());
                    assert(rest.push(p)[rest.len() as int].0 == s.last().0);
                    assert(seq_has_key(rest.push(p), s.last().0));
                    let j = choose|j: int|
                        0 <= j < rest.push(p).len() && rest.push(p)[j].0 == s.last().0;
                    assert(j == rest.len()) by {
                        if j < rest.len() {
                            assert(rest[j].0 == s.last().0);
                            assert(seq_has_key(rest, s.last().0));
                        }
                    }
                }
            }
            assert forall|i: int|
                0 <= i < s.len() && (#[trigger] res[i]).1 implies !seq_has_key(
                apply_visit(s, res),
                s[i].0,
            ) by {
                assert(i < s1.len());
                assert(r1[i] == res[i] && s1[i] == s[i]);
                assert(s[i].0 != p.0) by {
                    if s1[i].0 == s.last().0 {
                        assert(seq_has_key(s1, s.last().0));
                    }
                }
                if seq_has_key(rest.push(p), s[i].0) {
                    let j = choose|j: int|
                        0 <= j < rest.push(p).len() && rest.push(p)[j].0 == s[i].0;
                    assert(j < rest.len());
                    assert(rest[j].0 == s[i].0);
                    assert(seq_has_key(rest, s[i].0));
                }
            }
        }
    }
}

/// A reference absent from the store stays absent under any later insertion
/// that mints a different reference.
pub proof fn lemma_absent_after_insert<K, T>(s: Seq<(K, T)>, k: K, k2: K, v: T)
    requires
        !seq_has_key(s, k),
        k2 != k,
    ensures
        !seq_has_key(s.push((k2, v)), k),
{
    if seq_has_key(s.push((k2, v)), k) {
        let i = choose|i: int| 0 <= i < s.push((k2, v)).len() && s.push((k2, v))[i].0 == k;
        if i < s.len() {
            assert(s[i].0 == k);
        }
    }
}

/// An element lies in `seq_remove_elems(s, rem)` exactly when it lies in `s`
/// and not in `rem`.
pub proof fn lemma_remove_elems_membership<T>(s: Seq<T>, rem: Seq<T>)
    ensures
        forall|x: T| #[trigger]
            seq_has(seq_remove_elems(s, rem), x) <==> (seq_has(s, x) && !seq_has(rem, x)),
    decreases s.len(),
{
    if s.len() == 0 {
        assert forall|x: T| !seq_has(seq_remove_elems(s, rem), x) && !seq_has(s, x) by {
            if seq_has(s, x) {
                let i = choose|i: int| 0 <= i < s.len() && s[i] == x;
            }
            if seq_has(seq_remove_elems(s, rem), x) {
                let i = choose|i: int|
                    0 <= i < seq_remove_elems(s, rem).len() && seq_remove_elems(s, rem)[i] == x;
            }
        }
    } else {
        lemma_remove_elems_membership(s.drop_last(), rem);
        let rest = seq_remove_elems(s.drop_last(), rem);
        assert forall|x: T| #[trigger]
            seq_has(seq_remove_elems(s, rem), x) <==> (seq_has(s, x) && !seq_has(rem, x)) by {
            assert(seq_has(s.drop_last(), x) ==> seq_has(s, x)) by {
                if seq_has(s.drop_last(), x) {
                    let i = choose|i: int| 0 <= i < s.drop_last().len() && s.drop_last()[i] == x;
                    assert(s[i] == x);
                }
            }
            if seq_has(rem, s.last()) {
                assert(seq_remove_elems(s, rem) == rest);
                if seq_has(s, x) && !seq_has(rem, x) {
                    let i = choose|i: int| 0 <= i < s.len() && s[i] == x;
                    assert(i < s.len() - 1) by {
                        if i == s.len() - 1 {
                            assert(x == s.last());
                        }
                    }
                    assert(s.drop_last()[i] == x);
                    assert(seq_has(s.drop_last(), x));
                }
            } else {
                assert(seq_remove_elems(s, rem) == rest.push(s.last()));
                assert(seq_has(rest, x) ==> seq_has(rest.push(s.last()), x)) by {
                    if seq_has(rest, x) {
                        let i = choose|i: int| 0 <= i < rest.len() && rest[i] == x;
                        assert(rest.push(s.last())[i] == x);
                    }
                }
                if seq_has(rest.push(s.last()), x) {
                    let i = choose|i: int|
                        0 <= i < rest.push(s.last()).len() && rest.push(s.last())[i] == x;
                    if i < rest.len() {
                        assert(rest[i] == x);
                        assert(seq_has(rest, x));
                    } else {
                        assert(x == s.last());
                        assert(s[s.len() - 1] == x);
                        assert(seq_has(s, x));
                    }
                }
                if seq_has(s, x) && !seq_has(rem, x) {
                    let i = choose|i: int| 0 <= i < s.len() && s[i] == x;
                    if i == s.len() - 1 {
                        assert(rest.push(s.last())[rest.len() as int] == x);
                        assert(seq_has(rest.push(s.last()), x));
                    } else {
                        assert(s.drop_last()[i] == x);
                        assert(seq_has(s.drop_last(), x));
                    }
                }
            }
        }
    }
}

/// With distinct identities, the pruned list holds exactly the identities
/// whose visit outcome prunes them.
pub proof fn lemma_pruned_refs_membership<K, T>(refs: Seq<K>, res: Seq<Option<(T, bool)>>)
    requires
        forall|a: int, b: int| 0 <= a < b < refs.len() ==> refs[a] != refs[b],
        res.len() == refs.len(),
    ensures
        forall|i: int|
            0 <= i < refs.len() ==> (seq_has(pruned_refs(refs, res), refs[i]) <==> prunes(
                #[trigger] res[i],
            )),
    decreases refs.len(),
{
    if refs.len() == 0 {
    } else {
        let refs1 = refs.drop_last();
        let res1 = res.drop_last();
        lemma_pruned_refs_membership(refs1, res1);
        lemma_pruned_refs_sub::<K, T>(refs1, res1);
        let rest = pruned_refs(refs1, res1);
        assert(!seq_has(refs1, refs.last())) by {
            if seq_has(refs1, refs.last()) {
                let i = choose|i: int| 0 <= i < refs1.len() && refs1[i] == refs.last();
                assert(refs[i] == refs[refs.len() - 1]);
            }
        }
        assert(!seq_has(rest, refs.last()));
        assert forall|i: int|
            0 <= i < refs.len() implies (seq_has(pruned_refs(refs, res), refs[i]) <==> prunes(
            #[trigger] res[i],
        )) by {
            if i < refs1.len() {
                assert(res1[i] == res[i] && refs1[i] == refs[i]);
                assert(refs[i] != refs.last());
                if prunes(res.last()) {
                    assert(pruned_refs(refs, res) == rest.push(refs.last()));
                    if seq_has(rest, refs[i]) {
                        let a = choose|a: int| 0 <= a < rest.len() && rest[a] == refs[i];
                        assert(rest.push(refs.last())[a] == refs[i]);
                    }
                    if seq_has(rest.push(refs.last()), refs[i]) {
                        let a = choose|a: int|
                            0 <= a < rest.push(refs.last()).len() && rest.push(refs.last())[a]
                                == refs[i];
                        if a < rest.len() {
                            assert(seq_has(rest, refs[i]));
                        }
                    }
                } else {
                    assert(pruned_refs(refs, res) == rest);
                }
            } else {
                assert(refs[i] == refs.last() && res[i] == res.last());
                if prunes(res.last()) {
                    assert(pruned_refs(refs, res) == rest.push(refs.last()));
                    assert(rest.push(refs.last())[rest.len() as int] == refs.last());
                    assert(seq_has(pruned_refs(refs, res), refs.last()));
                } else {
                    assert(pruned_refs(refs, res) == rest);
                    assert(!seq_has(rest, refs.last()));
                }
            }
        }
    }
}

/// Pruning exactness of a restricted pass: afterwards the derived index holds
/// exactly the visited identities that survived.  An identity flagged by the
/// callback, or already absent from the owning store, is gone; no other
/// identity is removed.
pub proof fn lemma_ref_set_pruning<K, T>(refs: Seq<K>, res: Seq<Option<(T, bool)>>)
    requires
        forall|a: int, b: int| 0 <= a < b < refs.len() ==> refs[a] != refs[b],
        res.len() == refs.len(),
    ensures
        forall|i: int|
            0 <= i < refs.len() && prunes(#[trigger] res[i]) ==> !seq_has(
                seq_remove_elems(refs, pruned_refs(refs, res)),
                refs[i],
            ),
        forall|i: int|
            0 <= i < refs.len() && !prunes(#[trigger] res[i]) ==> seq_has(
                seq_remove_elems(refs, pruned_refs(refs, res)),
                refs[i],
            ),
{
    lemma_pruned_refs_membership(refs, res);
    lemma_remove_elems_membership(refs, pruned_refs(refs, res));
    assert forall|i: int|
        0 <= i < refs.len() && !prunes(#[trigger] res[i]) implies seq_has(
        seq_remove_elems(refs, pruned_refs(refs, res)),
        refs[i],
    ) by {
        assert(seq_has(refs, refs[i]));
    }
}

/// A stable, opaque identity for one entity of kind `T`: a 128-bit value
/// minted at insertion and never tied to the entity's position.
pub struct EntityRef<T> {
    id: u128,
    _marker: PhantomData<T>,
}

impl<T> EntityRef<T> {
    /// The 128-bit value behind this reference.
    pub closed spec fn spec_id(&self) -> u128 {
        self.id
    }

    fn from_id(id: u128) -> (r: Self)
        ensures
            r.spec_id() == id,
    {
        EntityRef { id, _marker: PhantomData }
    }

    /// Two references are the same value exactly when their identifiers agree.
    pub proof fn lemma_id_determines_ref(a: Self, b: Self)
        ensures
            (a == b) <==> a.spec_id() == b.spec_id(),
    {
        if a.spec_id() == b.spec_id() {
            assert(a._marker == b._marker);
        }
    }

    /// The hyphenated text form of this reference.
    pub fn to_string(&self) -> (r: String)
        ensures
            r@ == uuid_text(self.spec_id()),
    {
        uuid_u128_to_string(self.id)
    }
}

impl<T> Clone for EntityRef<T> {
    fn clone(&self) -> (r: Self)
        ensures
            r == *self,
    {
        EntityRef { id: self.id, _marker: PhantomData }
    }
}

impl<T> Copy for EntityRef<T> {

}

impl<T> MapKey for EntityRef<T> {
    fn key_eq(&self, other: &Self) -> (r: bool)
        ensures
            r <==> *self == *other,
    {
        proof {
            EntityRef::<T>::lemma_id_determines_ref(*self, *other);
        }
        self.id == other.id
    }
}

impl<T> PartialEq for EntityRef<T> {
    fn eq(&self, other: &Self) -> (r: bool) {
        self.id == other.id
    }
}

impl<T> Eq for EntityRef<T> {

}

impl<T> vstd::std_specs::cmp::PartialEqSpecImpl for EntityRef<T> {
    open spec fn obeys_eq_spec() -> bool {
        true
    }

    open spec fn eq_spec(&self, other: &Self) -> bool {
        self.spec_id() == other.spec_id()
    }
}

impl<T> PartialOrd for EntityRef<T> {
    fn partial_cmp(&self, other: &Self) -> (r: Option<core::cmp::Ordering>) {
        if self.id < other.id {
            Some(core::cmp::Ordering::Less)
        } else if self.id == other.id {
            Some(core::cmp::Ordering::Equal)
        } else {
            Some(core::cmp::Ordering::Greater)
        }
    }
}

impl<T> vstd::std_specs::cmp::PartialOrdSpecImpl for EntityRef<T> {
    open spec fn obeys_partial_cmp_spec() -> bool {
        true
    }

    open spec fn partial_cmp_spec(&self, other: &Self) -> Option<core::cmp::Ordering> {
        if self.spec_id() < other.spec_id() {
            Some(core::cmp::Ordering::Less)
        } else if self.spec_id() == other.spec_id() {
            Some(core::cmp::Ordering::Equal)
        } else {
            Some(core::cmp::Ordering::Greater)
        }
    }
}

impl<T> core::str::FromStr for EntityRef<T> {
    type Err = ();

    fn from_str(s: &str) -> Result<Self, Self::Err> {
        match uuid_u128_from_str(s) {
            Some(id) => Ok(EntityRef::from_id(id)),
            None => Err(()),
        }
    }
}

/// An owning, insertion-order-preserving mapping from minted identities to
/// entities.
pub struct EntitySet<T> {
    entities: CustomMap<EntityRef<T>, T>,
}

impl<T> View for EntitySet<T> {
    type V = Seq<(EntityRef<T>, T)>;

    closed spec fn view(&self) -> Seq<(EntityRef<T>, T)> {
        self.entities@
    }
}

impl<T> EntitySet<T> {
    /// Identities are pairwise distinct.
    pub open spec fn wf(&self) -> bool {
        seq_keys_distinct(self@)
    }

    /// The entity stored under `entity_ref`, if any.
    pub open spec fn spec_get(&self, entity_ref: EntityRef<T>) -> Option<T> {
        if seq_has_key(self@, entity_ref) {
            Some(seq_key_val(self@, entity_ref))
        } else {
            None
        }
    }

    /// Mints a fresh identity and stores `entity` under it, appending at the
    /// end.  In the astronomically unlikely event that the drawn 128-bit value
    /// already keys an entry, that entry's value is replaced in place instead.
    pub fn insert(&mut self, entity: T) -> (r: EntityRef<T>)
        requires
            old(self).wf(),
        ensures
            final(self).wf(),
            final(self).spec_get(r) == Some(entity),
            !seq_has_key(old(self)@, r) ==> final(self)@ == old(self)@.push((r, entity)),
            seq_has_key(old(self)@, r) ==> exists|i: int|
                0 <= i < old(self)@.len() && old(self)@[i].0 == r && final(self)@ == old(self)@.update(i, (r, entity)),
    {
        let entity_ref = EntityRef::from_id(fresh_uuid_u128());
        let _replaced = self.entities.insert(entity_ref, entity);
        entity_ref
    }

    pub fn get(&self, entity_ref: &EntityRef<T>) -> (r: Option<&T>)
        requires
            self.wf(),
        ensures
            match r {
                Some(v) => self.spec_get(*entity_ref) == Some(*v),
                None => self.spec_get(*entity_ref) is None,
            },
    {
        self.entities.get(entity_ref)
    }

    pub fn get_mut(&mut self, entity_ref: &EntityRef<T>) -> (r: Option<&mut T>)
        requires
            old(self).wf(),
        ensures
            match r {
                Some(v) => {
                    &&& exists|i: int|
                        0 <= i < old(self)@.len() && old(self)@[i] == (*entity_ref, *v) && final(self)@ == old(self)@.update(i, (*entity_ref, *final(v)))
                    &&& old(self).spec_get(*entity_ref) == Some(*v)
                },
                None => {
                    &&& final(self)@ == old(self)@
                    &&& old(self).spec_get(*entity_ref) is None
                },
            },
            final(self).wf(),
    {
        match self.entities.index_of(entity_ref) {
            Some(i) => {
                proof {
                    let j = choose|j: int|
                        0 <= j < self@.len() && self@[j].0 == *entity_ref;
                    assert(j == i);
                }
                Some(self.entities.value_at_mut(i))
            },
            None => None,
        }
    }

    /// Removes the entry for `entity_ref`, if any, returning the entity.  The
    /// last entry is swapped into its place.
    pub fn remove(&mut self, entity_ref: &EntityRef<T>) -> (r: Option<T>)
        requires
            old(self).wf(),
        ensures
            final(self).wf(),
            !seq_has_key(final(self)@, *entity_ref),
            forall|k: EntityRef<T>|
                k != *entity_ref ==> final(self).spec_get(k) == old(self).spec_get(k),
            match r {
                Some(v) => {
                    &&& old(self).spec_get(*entity_ref) == Some(v)
                    &&& exists|i: int|
                        0 <= i < old(self)@.len() && old(self)@[i] == (*entity_ref, v) && final(self)@ == old(self)@.update(i, old(self)@.last()).drop_last()
                },
                None => {
                    &&& old(self).spec_get(*entity_ref) is None
                    &&& final(self)@ == old(self)@
                },
            },
    {
        let ghost m0 = self.entities;
        let r = self.entities.swap_remove(entity_ref);
        proof {
            assert forall|k: EntityRef<T>|
                k != *entity_ref implies self.spec_get(k) == old(self).spec_get(k) by {
                assert(self.entities.spec_get(k) == m0.spec_get(k));
            }
        }
        r
    }

    /// Visits every stored entity in storage order.  The callback receives the
    /// current value and returns the value to store in its place together with
    /// a removal flag; flagged entries are deleted only after the full pass.
    pub fn for_each_mut<F: Fn(&T) -> (T, bool)>(&mut self, f: F)
        requires
            old(self).wf(),
            forall|v: &T| call_requires(f, (v,)),
        ensures
            final(self).wf(),
            exists|res: Seq<(T, bool)>|
                {
                    &&& res.len() == old(self)@.len()
                    &&& (forall|i: int|
                        0 <= i < res.len() ==> call_ensures(
                            f,
                            (&old(self)@[i].1,),
                            #[trigger] res[i],
                        ))
                    &&& final(self)@ == apply_visit(old(self)@, res)
                },
    {
        let ghost orig = self@;
        let ghost mut res: Seq<(T, bool)> = Seq::empty();
        let mut kept: Vec<(EntityRef<T>, T)> = Vec::new();
        while self.entities.len() > 0
            invariant
                forall|v: &T| call_requires(f, (v,)),
                self@.len() <= orig.len(),
                self@ =~= orig.subrange(orig.len() - self@.len(), orig.len() as int),
                res.len() == orig.len() - self@.len(),
                forall|i: int|
                    0 <= i < res.len() ==> call_ensures(f, (&orig[i].1,), #[trigger] res[i]),
                kept@ == apply_visit(orig.subrange(0, res.len() as int), res),
            decreases self@.len(),
        {
            let ghost done = res.len() as int;
            let ghost pre = orig.subrange(0, done);
            let (entity_ref, v) = self.entities.take_front();
            proof {
                assert((entity_ref, v) == orig[done]);
            }
            let (v2, remove) = f(&v);
            proof {
                let ghost res0 = res;
                res = res.push((v2, remove));
                assert(res.drop_last() =~= res0);
                assert(pre.push(orig[done]) =~= orig.subrange(0, done + 1));
                assert(orig.subrange(0, done + 1).drop_last() =~= pre);
                assert(orig.subrange(0, done + 1).last() == orig[done]);
            }
            if !remove {
                kept.push((entity_ref, v2));
            }
            proof {
                assert(self@ =~= orig.subrange(orig.len() - self@.len(), orig.len() as int));
                assert(kept@ == apply_visit(orig.subrange(0, res.len() as int), res));
            }
        }
        proof {
            assert(orig.subrange(0, orig.len() as int) =~= orig);
        }
        self.entities = CustomMap::from_entries(kept);
        proof {
            lemma_apply_visit_keys(orig, res);
        }
    }

    /// Visits, in index order, every identity of the derived index `set`.  An
    /// identity whose entity is present is visited as in [`Self::for_each_mut`];
    /// one whose entity is gone is pruned.  After the full pass, flagged and
    /// absent identities are removed from both the owning store and the index.
    pub fn for_each_in_mut<F: Fn(&T) -> (T, bool)>(&mut self, set: &mut EntityRefSet<T>, f: F)
        requires
            old(self).wf(),
            old(set).wf(),
            forall|v: &T| call_requires(f, (v,)),
        ensures
            final(self).wf(),
            final(set).wf(),
            exists|res: Seq<Option<(T, bool)>>|
                {
                    &&& res.len() == old(set)@.len()
                    &&& (forall|i: int|
                        0 <= i < res.len() ==> match #[trigger] res[i] {
                            None => !seq_has_key(old(self)@, old(set)@[i]),
                            Some(rv) => seq_has_key(old(self)@, old(set)@[i]) && call_ensures(
                                f,
                                (&seq_key_val(old(self)@, old(set)@[i]),),
                                rv,
                            ),
                        })
                    &&& final(self)@ == seq_remove_keys(
                        visit_vals(old(self)@, old(set)@, res),
                        pruned_refs(old(set)@, res),
                    )
                    &&& final(set)@ == seq_remove_elems(old(set)@, pruned_refs(old(set)@, res))
                },
    {
        let ghost orig_map = self@;
        let ghost refs = set@;
        let ghost mut res: Seq<Option<(T, bool)>> = Seq::empty();
        let mut to_remove: CustomSet<EntityRef<T>> = CustomSet::new();
        let n = set.entities.len();
        let mut idx: usize = 0;
        while idx < n
            invariant
                forall|v: &T| call_requires(f, (v,)),
                n == refs.len(),
                set@ == refs,
                forall|a: int, b: int| 0 <= a < b < refs.len() ==> refs[a] != refs[b],
                seq_keys_distinct(orig_map),
                idx <= n,
                res.len() == idx,
                forall|i: int|
                    0 <= i < idx ==> match #[trigger] res[i] {
                        None => !seq_has_key(orig_map, refs[i]),
                        Some(rv) => seq_has_key(orig_map, refs[i]) && call_ensures(
                            f,
                            (&seq_key_val(orig_map, refs[i]),),
                            rv,
                        ),
                    },
                self@ == visit_vals(orig_map, refs.subrange(0, idx as int), res),
                to_remove@ == pruned_refs(refs.subrange(0, idx as int), res),
                to_remove.wf(),
                self@.len() == orig_map.len(),
                forall|j: int| 0 <= j < orig_map.len() ==> (#[trigger] self@[j]).0 == orig_map[j].0,
                forall|j: int|
                    0 <= j < orig_map.len() && !seq_has(refs.subrange(0, idx as int), orig_map[j].0)
                        ==> self@[j] == orig_map[j],
            decreases n - idx,
        {
            let ghost prefix = refs.subrange(0, idx as int);
            let ghost prev_map = self@;
            let entity_ref = *set.entities.at(idx);
            proof {
                assert(entity_ref == refs[idx as int]);
                assert(!seq_has(prefix, entity_ref)) by {
                    if seq_has(prefix, entity_ref) {
                        let a = choose|a: int| 0 <= a < prefix.len() && prefix[a] == entity_ref;
                        assert(refs[a] == refs[idx as int]);
                    }
                }
                assert(prefix.push(entity_ref) =~= refs.subrange(0, idx + 1 as int));
                assert(refs.subrange(0, idx + 1 as int).drop_last() =~= prefix);
                assert(refs.subrange(0, idx + 1 as int).last() == entity_ref);
            }
            match self.entities.index_of(&entity_ref) {
                Some(i) => {
                    proof {
                        assert(orig_map[i as int].0 == entity_ref);
                        assert(seq_has_key(orig_map, entity_ref));
                        assert(prev_map[i as int] == orig_map[i as int]);
                        let c = choose|c: int|
                            0 <= c < orig_map.len() && orig_map[c].0 == entity_ref;
                        assert(c == i);
                        assert(seq_key_val(orig_map, entity_ref) == orig_map[i as int].1);
                    }
                    let entry = self.entities.entry_at(i);
                    let (v2, remove) = f(&entry.1);
                    *self.entities.value_at_mut(i) = v2;
                    proof {
                        let ghost res0 = res;
                        res = res.push(Some((v2, remove)));
                        assert(res.drop_last() =~= res0);
                        assert(self@ =~= update_key(prev_map, entity_ref, v2)) by {
                            assert forall|j: int| 0 <= j < prev_map.len() implies self@[j]
                                == update_key(prev_map, entity_ref, v2)[j] by {
                                if j != i {
                                    assert(prev_map[j].0 == orig_map[j].0);
                                    assert(orig_map[j].0 != entity_ref);
                                }
                            }
                        }
                    }
                    if remove {
                        let ghost tr0 = to_remove@;
                        let inserted = to_remove.insert(entity_ref);
                        proof {
                            lemma_pruned_refs_sub::<EntityRef<T>, T>(prefix, res.drop_last());
                            assert(!seq_has(tr0, entity_ref));
                            assert(inserted);
                        }
                    }
                },
                None => {
                    proof {
                        assert(!seq_has_key(prev_map, entity_ref));
                        assert(!seq_has_key(orig_map, entity_ref)) by {
                            if seq_has_key(orig_map, entity_ref) {
                                let c = choose|c: int|
                                    0 <= c < orig_map.len() && orig_map[c].0 == entity_ref;
                                assert(prev_map[c].0 == entity_ref);
                                assert(seq_has_key(prev_map, entity_ref));
                            }
                        }
                    }
                    let ghost tr0 = to_remove@;
                    let inserted = to_remove.insert(entity_ref);
                    proof {
                        let ghost res0 = res;
                        res = res.push(None);
                        assert(res.drop_last() =~= res0);
                        lemma_pruned_refs_sub::<EntityRef<T>, T>(prefix, res0);
                        assert(!seq_has(tr0, entity_ref));
                        assert(inserted);
                    }
                },
            }
            idx += 1;
        }
        proof {
            assert(refs.subrange(0, n as int) =~= refs);
        }
        self.entities.retain_not_in(&to_remove);
        set.entities.retain_not_in(&to_remove);
        proof {
            lemma_seq_remove_keys_sub(
                visit_vals(orig_map, refs, res),
                pruned_refs::<EntityRef<T>, T>(refs, res),
            );
            lemma_visit_vals_frame(orig_map, refs, res);
            assert(seq_keys_distinct(visit_vals(orig_map, refs, res))) by {
                assert forall|a: int, b: int|
                    0 <= a < b < visit_vals(orig_map, refs, res).len() implies visit_vals(
                    orig_map,
                    refs,
                    res,
                )[a].0 != visit_vals(orig_map, refs, res)[b].0 by {
                    assert(visit_vals(orig_map, refs, res)[a].0 == orig_map[a].0);
                    assert(visit_vals(orig_map, refs, res)[b].0 == orig_map[b].0);
                }
            }
            lemma_seq_remove_elems_sub(refs, pruned_refs::<EntityRef<T>, T>(refs, res));
        }
    }

    pub fn len(&self) -> (r: usize)
        ensures
            r == self@.len(),
    {
        self.entities.len()
    }

    /// The stored identities, in storage order.
    pub fn iter(&self) -> (r: Vec<EntityRef<T>>)
        ensures
            r@.len() == self@.len(),
            forall|i: int| 0 <= i < self@.len() ==> r@[i] == self@[i].0,
    {
        let n = self.entities.len();
        let mut refs: Vec<EntityRef<T>> = Vec::new();
        let mut i: usize = 0;
        while i < n
            invariant
                n == self@.len(),
                i <= n,
                refs@.len() == i,
                forall|j: int| 0 <= j < i ==> refs@[j] == self@[j].0,
            decreases n - i,
        {
            let entry = self.entities.entry_at(i);
            refs.push(entry.0);
            i += 1;
        }
        refs
    }

    /// The identities of the derived index `set`, in index order, whose
    /// entities are present in this store.
    pub fn iter_in(&self, set: &EntityRefSet<T>) -> (r: Vec<EntityRef<T>>)
        ensures
            r@ == present_refs(set@, self@),
    {
        let n = set.entities.len();
        let mut refs: Vec<EntityRef<T>> = Vec::new();
        let mut i: usize = 0;
        while i < n
            invariant
                n == set@.len(),
                i <= n,
                refs@ == present_refs(set@.subrange(0, i as int), self@),
            decreases n - i,
        {
            let ghost pre = set@.subrange(0, i as int);
            let entity_ref = *set.entities.at(i);
            proof {
                assert(pre.push(entity_ref) =~= set@.subrange(0, i + 1 as int));
                assert(set@.subrange(0, i + 1 as int).drop_last() =~= pre);
            }
            if self.entities.contains_key(&entity_ref) {
                refs.push(entity_ref);
            }
            i += 1;
        }
        proof {
            assert(set@.subrange(0, n as int) =~= set@);
        }
        refs
    }

    /// The entity at position `i` in storage order.
    pub fn entity_at(&self, i: usize) -> (r: &T)
        requires
            i < self@.len(),
        ensures
            *r == self@[i as int].1,
    {
        &self.entities.entry_at(i).1
    }
}

impl<T> Default for EntitySet<T> {
    fn default() -> (r: Self)
        ensures
            r@ == Seq::<(EntityRef<T>, T)>::empty(),
            r.wf(),
    {
        EntitySet { entities: CustomMap::new() }
    }
}

/// A non-owning, insertion-ordered set of identities: a derived index over an
/// [`EntitySet`].
pub struct EntityRefSet<T> {
    entities: CustomSet<EntityRef<T>>,
}

impl<T> View for EntityRefSet<T> {
    type V = Seq<EntityRef<T>>;

    closed spec fn view(&self) -> Seq<EntityRef<T>> {
        self.entities@
    }
}

impl<T> EntityRefSet<T> {
    /// Identities are pairwise distinct.
    pub open spec fn wf(&self) -> bool {
        forall|i: int, j: int| 0 <= i < j < self@.len() ==> self@[i] != self@[j]
    }

    pub fn insert(&mut self, entity_ref: EntityRef<T>) -> (r: bool)
        requires
            old(self).wf(),
        ensures
            final(self).wf(),
            r == !seq_has(old(self)@, entity_ref),
            final(self)@ == if r {
                old(self)@.push(entity_ref)
            } else {
                old(self)@
            },
    {
        self.entities.insert(entity_ref)
    }

    pub fn remove(&mut self, entity_ref: &EntityRef<T>) -> (r: bool)
        requires
            old(self).wf(),
        ensures
            final(self).wf(),
            r == seq_has(old(self)@, *entity_ref),
            !seq_has(final(self)@, *entity_ref),
            r ==> exists|i: int|
                0 <= i < old(self)@.len() && old(self)@[i] == *entity_ref && final(self)@ == old(self)@.update(i, old(self)@.last()).drop_last(),
            !r ==> final(self)@ == old(self)@,
    {
        self.entities.swap_remove(entity_ref)
    }

    pub fn len(&self) -> (r: usize)
        ensures
            r == self@.len(),
    {
        self.entities.len()
    }

    pub fn contains(&self, entity_ref: &EntityRef<T>) -> (r: bool)
        ensures
            r == seq_has(self@, *entity_ref),
    {
        self.entities.contains(entity_ref)
    }
}

impl<T> Default for EntityRefSet<T> {
    fn default() -> (r: Self)
        ensures
            r@ == Seq::<EntityRef<T>>::empty(),
            r.wf(),
    {
        EntityRefSet { entities: CustomSet::new() }
    }
}

} // verus!
