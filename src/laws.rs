//! Algebraic laws of the permutation engine.
use vstd::prelude::*;
use crate::catalog::{law_generator_order, table_spec, Face};
use crate::perm::{
    apply_seq, compose_seq, identity_seq, inverse_seq, is_bijection, lemma_inverse_seq,
};

verus! {

/// Applying the composite of `p` and `q` to a labeling is applying `p`, then `q`.
pub proof fn law_apply_compose(p: Seq<usize>, q: Seq<usize>, labels: Seq<usize>)
    requires
        is_bijection(p),
        is_bijection(q),
        p.len() == q.len(),
        labels.len() == p.len(),
    ensures
        apply_seq(compose_seq(p, q), labels) == apply_seq(q, apply_seq(p, labels)),
{
    assert(apply_seq(compose_seq(p, q), labels) =~= apply_seq(q, apply_seq(p, labels)));
}

/// The identity leaves every labeling unchanged.
pub proof fn law_apply_identity(labels: Seq<usize>)
    requires
        labels.len() <= usize::MAX,
    ensures
        apply_seq(identity_seq(labels.len()), labels) == labels,
{
    assert(apply_seq(identity_seq(labels.len()), labels) =~= labels);
}

/// Composition is associative.
pub proof fn law_compose_associative(p: Seq<usize>, q: Seq<usize>, r: Seq<usize>)
    requires
        is_bijection(p),
        is_bijection(q),
        is_bijection(r),
        p.len() == q.len(),
        q.len() == r.len(),
    ensures
        compose_seq(compose_seq(p, q), r) == compose_seq(p, compose_seq(q, r)),
{
    assert(compose_seq(compose_seq(p, q), r) =~= compose_seq(p, compose_seq(q, r)));
}

/// Composition of catalog generators is associative.
pub proof fn law_generators_associative(a: Face, b: Face, c: Face)
    ensures
        compose_seq(compose_seq(table_spec(a), table_spec(b)), table_spec(c)) == compose_seq(
            table_spec(a),
            compose_seq(table_spec(b), table_spec(c)),
        ),
{
    law_generator_order(a);
    law_generator_order(b);
    law_generator_order(c);
    law_compose_associative(table_spec(a), table_spec(b), table_spec(c));
}

/// The composite of two bijections of one size is a bijection.
pub proof fn law_compose_bijection(p: Seq<usize>, q: Seq<usize>)
    requires
        is_bijection(p),
        is_bijection(q),
        p.len() == q.len(),
    ensures
        is_bijection(compose_seq(p, q)),
{
    let c = compose_seq(p, q);
    assert forall|a: int, b: int| 0 <= a < c.len() && 0 <= b < c.len() && a != b implies #[trigger] c[a] != #[trigger] c[b] by {
        assert(q[a] != q[b]);
    }
}

/// The inverse of a bijection is a bijection.
pub proof fn law_inverse_bijection(p: Seq<usize>)
    requires
        is_bijection(p),
    ensures
        is_bijection(inverse_seq(p)),
{
    lemma_inverse_seq(p);
    let v = inverse_seq(p);
    assert forall|a: int, b: int| 0 <= a < v.len() && 0 <= b < v.len() && a != b implies #[trigger] v[a] != #[trigger] v[b] by {
        assert(p[v[a] as int] == a);
        assert(p[v[b] as int] == b);
    }
}

/// Every bijection composed with its inverse, on either side, is the identity.
/// Every composite of generators and their inverses is a bijection by the two
/// laws above, so this holds for each of them.
pub proof fn law_compose_inverse(p: Seq<usize>)
    requires
        is_bijection(p),
    ensures
        compose_seq(p, inverse_seq(p)) == identity_seq(p.len()),
        compose_seq(inverse_seq(p), p) == identity_seq(p.len()),
{
    lemma_inverse_seq(p);
    assert(compose_seq(p, inverse_seq(p)) =~= identity_seq(p.len()));
    assert(compose_seq(inverse_seq(p), p) =~= identity_seq(p.len()));
}

/// The permutation of a word of generators, read left to right; a letter
/// `(f, true)` stands for the inverse of the generator of face `f`.
pub open spec fn word_perm(word: Seq<(Face, bool)>) -> Seq<usize>
    decreases word.len(),
{
    if word.len() == 0 {
        identity_seq(54)
    } else {
        let (f, inverted) = word.last();
        let g = if inverted {
            inverse_seq(table_spec(f))
        } else {
            table_spec(f)
        };
        compose_seq(word_perm(word.drop_last()), g)
    }
}

/// The permutation of every word of generators and their inverses is a
/// bijection on the facelets.
pub proof fn law_word_bijection(word: Seq<(Face, bool)>)
    ensures
        is_bijection(word_perm(word)),
        word_perm(word).len() == 54,
    decreases word.len(),
{
    if word.len() > 0 {
        let (f, inverted) = word.last();
        law_word_bijection(word.drop_last());
        law_generator_order(f);
        assert(table_spec(f).len() == 54);
        law_inverse_bijection(table_spec(f));
        lemma_inverse_seq(table_spec(f));
        let g = if inverted {
            inverse_seq(table_spec(f))
        } else {
            table_spec(f)
        };
        law_compose_bijection(word_perm(word.drop_last()), g);
    }
}

/// Every permutation built from generators and their inverses, composed with
/// its inverse, is the identity.
pub proof fn law_word_compose_inverse(word: Seq<(Face, bool)>)
    ensures
        compose_seq(word_perm(word), inverse_seq(word_perm(word))) == identity_seq(54),
{
    law_word_bijection(word);
    law_compose_inverse(word_perm(word));
}

} // verus!
