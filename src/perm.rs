//! Permutations of `[0, n)` in array form: `p[i]` is where position `i` is sent.
use vstd::prelude::*;
use vstd::relations::injective_on;
use vstd::arithmetic::div_mod::{lemma_fundamental_div_mod, lemma_mod_multiples_basic, lemma_small_mod};
use vstd::set_lib::{lemma_len_subset, lemma_int_range, lemma_map_size, lemma_subset_equality, set_int_range};

verus! {

/// Errors raised by the permutation engine.
#[derive(Debug, Clone, Copy, PartialEq, Eq, Structural)]
pub enum PermError {
    /// The supplied sequence is not a bijection on `[0, n)`.
    InvalidPermutation,
    /// Two permutations over index ranges of different sizes were combined.
    DimensionMismatch,
}

/// Every entry lies in `[0, s.len())`.
pub open spec fn in_range(s: Seq<usize>) -> bool {
    forall|i: int| 0 <= i < s.len() ==> (#[trigger] s[i]) < s.len()
}

/// No value appears twice.
pub open spec fn injective(s: Seq<usize>) -> bool {
    forall|i: int, j: int| 0 <= i < s.len() && 0 <= j < s.len() && i != j ==> #[trigger] s[i] != #[trigger] s[j]
}

/// `s` is a bijection on `[0, s.len())`: each value of the range appears exactly once.
pub open spec fn is_bijection(s: Seq<usize>) -> bool {
    s.len() <= usize::MAX && in_range(s) && injective(s)
}

/// The identity on `[0, n)`.
pub open spec fn identity_seq(n: nat) -> Seq<usize> {
    Seq::new(n, |i: int| i as usize)
}

/// Position `i` of the result holds the label found at position `p[i]` of `labels`.
pub open spec fn apply_seq(p: Seq<usize>, labels: Seq<usize>) -> Seq<usize> {
    Seq::new(p.len(), |i: int| labels[p[i] as int])
}

/// The permutation that, applied to a labeling, acts as `p` followed by `q`.
pub open spec fn compose_seq(p: Seq<usize>, q: Seq<usize>) -> Seq<usize> {
    Seq::new(p.len(), |i: int| p[q[i] as int])
}

/// The inverse of `p`: entry `v` is the position that `p` sends to `v`.
pub open spec fn inverse_seq(p: Seq<usize>) -> Seq<usize> {
    Seq::new(p.len(), |v: int| (choose|i: int| 0 <= i < p.len() && p[i] as int == v) as usize)
}

/// The position reached from `i` after `k` steps of `p`.
pub open spec fn follow(p: Seq<usize>, i: int, k: nat) -> int
    decreases k,
{
    if k == 0 {
        i
    } else {
        p[follow(p, i, (k - 1) as nat)] as int
    }
}

/// `p` composed with itself `k` times; `power_seq(p, 0)` is the identity.
pub open spec fn power_seq(p: Seq<usize>, k: nat) -> Seq<usize>
    decreases k,
{
    if k == 0 {
        identity_seq(p.len())
    } else {
        compose_seq(power_seq(p, (k - 1) as nat), p)
    }
}

/// `k` is the order of `p`: the least positive power that gives the identity.
pub open spec fn is_order(p: Seq<usize>, k: nat) -> bool {
    &&& k > 0
    &&& power_seq(p, k) == identity_seq(p.len())
    &&& forall|j: nat| 0 < j < k ==> power_seq(p, j) != identity_seq(p.len())
}

pub proof fn lemma_follow_in_range(p: Seq<usize>, i: int, k: nat)
    requires
        in_range(p),
        0 <= i < p.len(),
    ensures
        0 <= follow(p, i, k) < p.len(),
    decreases k,
{
    if k > 0 {
        lemma_follow_in_range(p, i, (k - 1) as nat);
    }
}

/// Walking `a` steps and then `b` steps is walking `a + b` steps.
pub proof fn lemma_follow_add(p: Seq<usize>, i: int, a: nat, b: nat)
    ensures
        follow(p, follow(p, i, a), b) == follow(p, i, a + b),
    decreases b,
{
    if b > 0 {
        lemma_follow_add(p, i, a, (b - 1) as nat);
        assert((a + b - 1) as nat == a + (b - 1) as nat);
    }
}

/// Entry `i` of the `k`-th power is where `k` steps from `i` lead.
pub proof fn lemma_power_follow(p: Seq<usize>, k: nat)
    requires
        p.len() <= usize::MAX,
        in_range(p),
    ensures
        power_seq(p, k).len() == p.len(),
        forall|i: int| 0 <= i < p.len() ==> #[trigger] power_seq(p, k)[i] as int == follow(p, i, k),
    decreases k,
{
    if k > 0 {
        lemma_power_follow(p, (k - 1) as nat);
        assert forall|i: int| 0 <= i < p.len() implies #[trigger] power_seq(p, k)[i] as int == follow(p, i, k) by {
            lemma_follow_add(p, i, 1, (k - 1) as nat);
            assert(follow(p, i, 0) == i);
            assert(follow(p, i, 1) == p[i] as int);
            assert((1 + (k - 1)) as nat == k);
        }
    }
}

/// Composing two powers of `p` adds the exponents.
pub proof fn lemma_power_add(p: Seq<usize>, a: nat, b: nat)
    requires
        is_bijection(p),
    ensures
        compose_seq(power_seq(p, a), power_seq(p, b)) == power_seq(p, a + b),
{
    lemma_power_follow(p, a);
    lemma_power_follow(p, b);
    lemma_power_follow(p, a + b);
    let n = p.len();
    assert forall|i: int| 0 <= i < n implies #[trigger] compose_seq(power_seq(p, a), power_seq(p, b))[i]
        == power_seq(p, a + b)[i] by {
        lemma_follow_in_range(p, i, b);
        lemma_follow_add(p, i, b, a);
        assert(b + a == a + b);
    }
    assert(compose_seq(power_seq(p, a), power_seq(p, b)) =~= power_seq(p, a + b));
}

/// Some position of `p` is sent to `v`.
pub open spec fn has_preimage(p: Seq<usize>, v: int) -> bool {
    exists|i: int| 0 <= i < p.len() && p[i] as int == v
}

/// A bijection reaches every value of its range.
pub proof fn lemma_bijection_onto(p: Seq<usize>)
    requires
        is_bijection(p),
    ensures
        forall|v: int| 0 <= v < p.len() ==> #[trigger] has_preimage(p, v),
{
    let n = p.len() as int;
    let dom = set_int_range(0, n);
    let f = |i: int| p[i] as int;
    lemma_int_range(0, n);
    let img = dom.map(f);
    assert(injective_on(f, dom));
    lemma_map_size(dom, img, f);
    assert(img.subset_of(dom));
    lemma_subset_equality(img, dom);
    assert forall|v: int| 0 <= v < n implies #[trigger] has_preimage(p, v) by {
        assert(dom.contains(v));
        assert(img.contains(v));
    }
}

/// `d` divides `k`.
pub open spec fn divides(d: int, k: int) -> bool {
    k % d == 0
}

/// Every position below `i` comes back to itself after `k` steps.
pub open spec fn periodic_below(p: Seq<usize>, k: nat, i: int) -> bool {
    forall|v: int| 0 <= v < i ==> #[trigger] follow(p, v, k) == v
}

/// `v` lies on the first `c` steps of the walk from `i`.
pub open spec fn walked(p: Seq<usize>, i: int, c: nat, v: int) -> bool {
    exists|m: nat| m < c && follow(p, i, m) == v
}

/// Every position comes back to itself after `k` steps exactly when the `k`-th power is the identity.
pub proof fn lemma_power_identity(p: Seq<usize>, k: nat)
    requires
        p.len() <= usize::MAX,
        in_range(p),
    ensures
        power_seq(p, k) == identity_seq(p.len()) <==> periodic_below(p, k, p.len() as int),
{
    lemma_power_follow(p, k);
    if periodic_below(p, k, p.len() as int) {
        assert(power_seq(p, k) =~= identity_seq(p.len()));
    }
    if power_seq(p, k) == identity_seq(p.len()) {
        assert forall|v: int| 0 <= v < p.len() implies #[trigger] follow(p, v, k) == v by {
            assert(power_seq(p, k)[v] as int == v);
        }
    }
}

/// A power of a bijection is injective.
pub proof fn lemma_follow_cancel(p: Seq<usize>, x: int, y: int, a: nat)
    requires
        is_bijection(p),
        0 <= x < p.len(),
        0 <= y < p.len(),
        follow(p, x, a) == follow(p, y, a),
    ensures
        x == y,
    decreases a,
{
    if a > 0 {
        let a1 = (a - 1) as nat;
        lemma_follow_in_range(p, x, a1);
        lemma_follow_in_range(p, y, a1);
        assert(p[follow(p, x, a1)] == p[follow(p, y, a1)]);
        lemma_follow_cancel(p, x, y, a1);
    }
}

/// The walk from `i` returns to `i` within `p.len()` steps.
pub proof fn lemma_cycle_returns(p: Seq<usize>, i: int)
    requires
        is_bijection(p),
        0 <= i < p.len(),
    ensures
        exists|k: nat| 1 <= k <= p.len() && follow(p, i, k) == i,
{
    let n = p.len() as int;
    if !(exists|k: nat| 1 <= k <= p.len() && follow(p, i, k) == i) {
        let f = |k: int| follow(p, i, k as nat);
        let dom = set_int_range(0, n + 1);
        assert forall|a: int, b: int| dom.contains(a) && dom.contains(b) && #[trigger] f(a) == #[trigger] f(b) implies a == b by {
            if a != b {
                let (lo, hi) = if a < b { (a, b) } else { (b, a) };
                let d = (hi - lo) as nat;
                lemma_follow_add(p, i, d, lo as nat);
                assert(d + lo as nat == hi as nat);
                lemma_follow_in_range(p, i, d);
                lemma_follow_cancel(p, follow(p, i, d), i, lo as nat);
                assert(1 <= d <= p.len() && follow(p, i, d) == i);
            }
        }
        assert(injective_on(f, dom));
        lemma_int_range(0, n + 1);
        lemma_int_range(0, n);
        let img = dom.map(f);
        lemma_map_size(dom, img, f);
        assert forall|v: int| img.contains(v) implies set_int_range(0, n).contains(v) by {
            let k = choose|k: int| dom.contains(k) && f(k) == v;
            lemma_follow_in_range(p, i, k as nat);
        }
        lemma_len_subset(img, set_int_range(0, n));
    }
}

/// If `c` steps bring `i` back, so does any multiple of `c`.
pub proof fn lemma_follow_multiple(p: Seq<usize>, i: int, c: nat, q: nat)
    requires
        follow(p, i, c) == i,
    ensures
        follow(p, i, c * q) == i,
    decreases q,
{
    if q > 0 {
        let q1 = (q - 1) as nat;
        lemma_follow_multiple(p, i, c, q1);
        lemma_follow_add(p, i, c * q1, c);
        assert(c * q1 + c == c * q) by (nonlinear_arith)
            requires
                q1 == q - 1,
        ;
    } else {
        assert(c * q == 0) by (nonlinear_arith)
            requires
                q == 0,
        ;
    }
}

/// If `d` steps bring `i` back and `d` divides `k`, then `k` steps bring `i` back.
pub proof fn lemma_follow_divides(p: Seq<usize>, i: int, d: nat, k: nat)
    requires
        d > 0,
        follow(p, i, d) == i,
        divides(d as int, k as int),
    ensures
        follow(p, i, k) == i,
{
    lemma_fundamental_div_mod(k as int, d as int);
    let q = (k / d) as nat;
    lemma_follow_multiple(p, i, d, q);
    assert(d * q == k);
}

/// With `c` the length of the cycle through `i`, `k` steps bring `i` back exactly when `c` divides `k`.
pub proof fn lemma_cycle_mod(p: Seq<usize>, i: int, c: nat, k: nat)
    requires
        c > 0,
        follow(p, i, c) == i,
        forall|m: nat| 0 < m < c ==> follow(p, i, m) != i,
    ensures
        follow(p, i, k) == i <==> divides(c as int, k as int),
{
    lemma_fundamental_div_mod(k as int, c as int);
    let q = (k / c) as nat;
    let r = (k % c) as nat;
    lemma_follow_multiple(p, i, c, q);
    lemma_follow_add(p, i, c * q, r);
    assert(c * q + r == k);
}

/// The least common multiple of `l` and `c`, or `None` when no common
/// multiple fits in a `u64`.
fn lcm_checked(l: u64, c: u64) -> (r: Option<u64>)
    requires
        l > 0,
        c > 0,
    ensures
        r matches Some(m) ==> m > 0 && divides(l as int, m as int) && divides(c as int, m as int)
            && forall|k: int| k > 0 && #[trigger] divides(l as int, k) && divides(c as int, k) ==> divides(m as int, k),
        r is None ==> forall|k: int| 0 < k <= u64::MAX ==> !(#[trigger] divides(l as int, k) && divides(c as int, k)),
{
    let mut m: u64 = l;
    let ghost mut t: int = 1;
    while m % c != 0
        invariant
            l > 0,
            c > 0,
            m == t * l,
            m >= l,
            1 <= t <= c,
            forall|s: int| 1 <= s < t ==> !divides(c as int, #[trigger] (s * l)),
        decreases c - t,
    {
        proof {
            if t == c {
                lemma_mod_multiples_basic(l as int, c as int);
                assert(m == l * c) by (nonlinear_arith)
                    requires
                        m == t * l,
                        t == c,
                ;
            }
        }
        if m > u64::MAX - l {
            proof {
                assert forall|k: int| 0 < k <= u64::MAX implies !(#[trigger] divides(l as int, k) && divides(c as int, k)) by {
                    if divides(l as int, k) && divides(c as int, k) {
                        lemma_fundamental_div_mod(k, l as int);
                        let s = k / l as int;
                        assert(k == s * l) by (nonlinear_arith)
                            requires
                                k == l * (k / l as int) + k % (l as int),
                                k % (l as int) == 0,
                                s == k / l as int,
                        ;
                        assert(s >= 1) by (nonlinear_arith)
                            requires
                                k == s * l,
                                k > 0,
                                l > 0,
                        ;
                        if s < t {
                            assert(!divides(c as int, s * l));
                        } else if s == t {
                            assert(k == m);
                        } else {
                            assert(s * l >= t * l + l) by (nonlinear_arith)
                                requires
                                    s >= t + 1,
                                    l > 0,
                            ;
                        }
                    }
                }
            }
            return None;
        }
        proof {
            assert(m + l == (t + 1) * l) by (nonlinear_arith)
                requires
                    m == t * l,
            ;
        }
        m = m + l;
        proof {
            t = t + 1;
        }
    }
    proof {
        assert forall|k: int| k > 0 && #[trigger] divides(l as int, k) && divides(c as int, k) implies divides(m as int, k) by {
            lemma_fundamental_div_mod(k, l as int);
            lemma_fundamental_div_mod(k, c as int);
            lemma_fundamental_div_mod(m as int, c as int);
            lemma_fundamental_div_mod(k, m as int);
            let s = k / l as int;
            let q = k / m as int;
            let rm = k % m as int;
            let s1 = s - t * q;
            assert(rm == s1 * l) by (nonlinear_arith)
                requires
                    k == l * s,
                    k == m * q + rm,
                    m == t * l,
                    s1 == s - t * q,
            ;
            assert(0 <= s1 < t) by (nonlinear_arith)
                requires
                    rm == s1 * l,
                    0 <= rm < m,
                    m == t * l,
                    l > 0,
            ;
            let x = k / c as int - (m as int / c as int) * q;
            assert(rm == x * c) by (nonlinear_arith)
                requires
                    k == c * (k / c as int),
                    m == c * (m as int / c as int),
                    rm == k - m * q,
                    x == k / c as int - (m as int / c as int) * q,
            ;
            lemma_mod_multiples_basic(x, c as int);
            if s1 >= 1 {
                assert(divides(c as int, s1 * l));
            }
            assert(rm == 0) by (nonlinear_arith)
                requires
                    s1 == 0,
                    rm == s1 * l,
            ;
        }
        lemma_mod_multiples_basic(t, l as int);
    }
    Some(m)
}

/// `inverse_seq(p)` undoes `p` on both sides.
pub proof fn lemma_inverse_seq(p: Seq<usize>)
    requires
        is_bijection(p),
    ensures
        inverse_seq(p).len() == p.len(),
        forall|v: int| 0 <= v < p.len() ==> #[trigger] inverse_seq(p)[v] < p.len() && p[inverse_seq(p)[v] as int] == v,
        forall|i: int| 0 <= i < p.len() ==> #[trigger] inverse_seq(p)[p[i] as int] == i,
{
    lemma_bijection_onto(p);
    assert forall|v: int| 0 <= v < p.len() implies #[trigger] inverse_seq(p)[v] < p.len() && p[inverse_seq(p)[v] as int] == v by {
        assert(has_preimage(p, v));
    }
    assert forall|i: int| 0 <= i < p.len() implies #[trigger] inverse_seq(p)[p[i] as int] == i by {
        let v = p[i] as int;
        assert(has_preimage(p, v));
        let j = choose|j: int| 0 <= j < p.len() && p[j] as int == v;
        assert(inverse_seq(p)[v] as int == j);
    }
}

/// A permutation of `[0, n)`, validated at construction.
pub struct Permutation {
    map: Vec<usize>,
}

impl View for Permutation {
    type V = Seq<usize>;

    closed spec fn view(&self) -> Seq<usize> {
        self.map@
    }
}

impl Permutation {
    /// The permutation holds a bijection on its index range.
    pub open spec fn wf(&self) -> bool {
        is_bijection(self@)
    }

    /// Validates `values` as a bijection on `[0, values.len())`.
    pub fn new(values: Vec<usize>) -> (r: Result<Permutation, PermError>)
        ensures
            is_bijection(values@) <==> r is Ok,
            r is Ok ==> r->Ok_0@ == values@ && r->Ok_0.wf(),
            r is Err ==> r->Err_0 == PermError::InvalidPermutation,
    {
        let n = values.len();
        let mut seen: Vec<bool> = vec![false; n];
        let mut i: usize = 0;
        while i < n
            invariant
                n == values.len(),
                seen.len() == n,
                0 <= i <= n,
                forall|j: int| 0 <= j < i ==> values@[j] < n,
                forall|j: int| 0 <= j < i ==> seen@[#[trigger] values@[j] as int],
                forall|v: int|
                    0 <= v < n && #[trigger] seen@[v] ==> exists|j: int| 0 <= j < i && values@[j] == v,
                forall|j: int, k: int| 0 <= j < i && 0 <= k < i && j != k ==> #[trigger] values@[j] != #[trigger] values@[k],
            decreases n - i,
        {
            let v = values[i];
            if v >= n {
                assert(!in_range(values@));
                return Err(PermError::InvalidPermutation);
            }
            if seen[v] {
                proof {
                    let j = choose|j: int| 0 <= j < i && values@[j] == v;
                    assert(values@[j] == values@[i as int]);
                    assert(!injective(values@));
                }
                return Err(PermError::InvalidPermutation);
            }
            seen.set(v, true);
            i = i + 1;
        }
        Ok(Permutation { map: values })
    }

    /// The identity permutation on `[0, n)`.
    pub fn identity(n: usize) -> (r: Permutation)
        ensures
            r@ == identity_seq(n as nat),
            r.wf(),
    {
        let mut map: Vec<usize> = Vec::new();
        let mut i: usize = 0;
        while i < n
            invariant
                0 <= i <= n,
                map@ == identity_seq(i as nat),
            decreases n - i,
        {
            map.push(i);
            i = i + 1;
        }
        Permutation { map }
    }

    /// The number of positions the permutation acts on.
    pub fn len(&self) -> (r: usize)
        ensures
            r == self@.len(),
    {
        self.map.len()
    }

    /// Where position `i` is sent.
    pub fn get(&self, i: usize) -> (r: usize)
        requires
            i < self@.len(),
        ensures
            r == self@[i as int],
    {
        self.map[i]
    }

    /// The array form as a vector.
    pub fn to_vec(&self) -> (r: Vec<usize>)
        ensures
            r@ == self@,
    {
        self.map.clone()
    }

    /// Relabels: position `i` of the result holds `labels[self[i]]`.
    pub fn apply(&self, labels: &Vec<usize>) -> (r: Result<Vec<usize>, PermError>)
        requires
            self.wf(),
        ensures
            r is Ok <==> labels@.len() == self@.len(),
            r is Ok ==> r->Ok_0@ == apply_seq(self@, labels@),
            r is Err ==> r->Err_0 == PermError::DimensionMismatch,
    {
        if labels.len() != self.map.len() {
            return Err(PermError::DimensionMismatch);
        }
        let n = self.map.len();
        let mut out: Vec<usize> = Vec::new();
        let mut i: usize = 0;
        while i < n
            invariant
                self.wf(),
                n == self@.len(),
                labels@.len() == n,
                0 <= i <= n,
                out@ == apply_seq(self@, labels@).subrange(0, i as int),
            decreases n - i,
        {
            out.push(labels[self.map[i]]);
            i = i + 1;
            assert(out@ =~= apply_seq(self@, labels@).subrange(0, i as int));
        }
        assert(out@ =~= apply_seq(self@, labels@));
        Ok(out)
    }

    /// The inverse: composing it with `self` on either side gives the identity.
    pub fn inverse(&self) -> (r: Permutation)
        requires
            self.wf(),
        ensures
            r.wf(),
            r@ == inverse_seq(self@),
            compose_seq(self@, r@) == identity_seq(self@.len()),
            compose_seq(r@, self@) == identity_seq(self@.len()),
    {
        let n = self.map.len();
        let mut inv: Vec<usize> = vec![0; n];
        let mut i: usize = 0;
        while i < n
            invariant
                self.wf(),
                n == self@.len(),
                inv@.len() == n,
                0 <= i <= n,
                forall|j: int| 0 <= j < i ==> inv@[#[trigger] self@[j] as int] == j,
            decreases n - i,
        {
            let v = self.map[i];
            inv.set(v, i);
            i = i + 1;
            assert forall|j: int| 0 <= j < i implies inv@[#[trigger] self@[j] as int] == j by {
                if j < i - 1 {
                    assert(self@[j] != self@[i - 1]);
                }
            }
        }
        proof {
            lemma_bijection_onto(self@);
        }
        let r = Permutation { map: inv };
        assert forall|v: int| 0 <= v < n implies self@[#[trigger] r@[v] as int] == v && r@[v] < n by {
            assert(has_preimage(self@, v));
            let j = choose|j: int| 0 <= j < n && self@[j] as int == v;
            assert(inv@[self@[j] as int] == j);
        }
        assert(compose_seq(self@, r@) =~= identity_seq(n as nat));
        assert(compose_seq(r@, self@) =~= identity_seq(n as nat));
        proof {
            lemma_inverse_seq(self@);
            assert forall|v: int| 0 <= v < n implies r@[v] == #[trigger] inverse_seq(self@)[v] by {
                assert(self@[r@[v] as int] == v);
                assert(self@[inverse_seq(self@)[v] as int] == v);
                if r@[v] != inverse_seq(self@)[v] {
                    assert(self@[r@[v] as int] != self@[inverse_seq(self@)[v] as int]);
                }
            }
            assert(r@ =~= inverse_seq(self@));
        }
        assert forall|a: int, b: int| 0 <= a < n && 0 <= b < n && a != b implies #[trigger] r@[a] != #[trigger] r@[b] by {
            assert(self@[r@[a] as int] == a);
            assert(self@[r@[b] as int] == b);
        }
        r
    }

    /// `self` composed with itself `k` times, by repeated squaring.
    pub fn power(&self, k: u64) -> (r: Permutation)
        requires
            self.wf(),
        ensures
            r.wf(),
            r@ == power_seq(self@, k as nat),
    {
        let n = self.map.len();
        let mut result = Permutation::identity(n);
        let mut base = Permutation { map: self.map.clone() };
        let mut e: u64 = k;
        let ghost mut a: nat = 0;
        let ghost mut b: nat = 1;
        proof {
            lemma_power_follow(self@, 1);
            assert(power_seq(self@, 0) == identity_seq(n as nat));
            assert(power_seq(self@, 1) =~= self@);
        }
        while e > 0
            invariant
                self.wf(),
                result.wf(),
                base.wf(),
                result@.len() == n,
                base@.len() == n,
                n == self@.len(),
                result@ == power_seq(self@, a),
                base@ == power_seq(self@, b),
                a + b * e == k,
            decreases e,
        {
            if e % 2 == 1 {
                proof {
                    lemma_power_add(self@, a, b);
                }
                result = result.compose_same(&base);
                proof {
                    a = a + b;
                }
            }
            proof {
                lemma_power_add(self@, b, b);
            }
            base = base.compose_same(&base);
            proof {
                let e0 = e as int;
                let h = e0 / 2;
                assert(e0 == 2 * h + e0 % 2);
                assert(b * e0 == b * (2 * h) + b * (e0 % 2)) by (nonlinear_arith)
                    requires
                        e0 == 2 * h + e0 % 2,
                ;
                assert(b * (2 * h) == (b + b) * h) by (nonlinear_arith);
                b = b + b;
            }
            e = e / 2;
        }
        assert(b * e == 0);
        result
    }

    /// The order: the least common multiple of the cycle lengths, each cycle
    /// found by walking from a position not yet visited until the walk
    /// returns. `None` exactly when the order does not fit in a `u64`.
    pub fn order(&self) -> (r: Option<u64>)
        requires
            self.wf(),
        ensures
            r matches Some(k) ==> is_order(self@, k as nat),
            r is None ==> forall|k: nat| 0 < k <= u64::MAX ==> power_seq(self@, k) != identity_seq(self@.len()),
    {
        let n = self.map.len();
        let ghost p = self@;
        let mut visited: Vec<bool> = vec![false; n];
        let mut l: u64 = 1;
        let mut i: usize = 0;
        while i < n
            invariant
                self.wf(),
                p == self@,
                n == p.len(),
                visited@.len() == n,
                0 <= i <= n,
                l > 0,
                forall|v: int| 0 <= v < i ==> #[trigger] visited@[v],
                forall|v: int| 0 <= v < n && #[trigger] visited@[v] ==> follow(p, v, l as nat) == v,
                forall|k: nat| k > 0 && #[trigger] periodic_below(p, k, i as int) ==> divides(l as int, k as int),
            decreases n - i,
        {
            if !visited[i] {
                let ghost before = visited@;
                proof {
                    lemma_cycle_returns(p, i as int);
                }
                let ghost k0 = choose|k: nat| 1 <= k <= p.len() && follow(p, i as int, k) == i;
                let mut j: usize = self.map[i];
                let mut c: usize = 1;
                visited.set(i, true);
                proof {
                    assert(follow(p, i as int, 0) == i);
                    assert(walked(p, i as int, 1, i as int));
                }
                while j != i
                    invariant
                        self.wf(),
                        p == self@,
                        n == p.len(),
                        visited@.len() == n,
                        before.len() == n,
                        visited@[i as int],
                        0 <= i < n,
                        j < n,
                        j == follow(p, i as int, c as nat),
                        1 <= c <= k0,
                        k0 <= n,
                        follow(p, i as int, k0) == i,
                        forall|m: nat| 0 < m < c ==> follow(p, i as int, m) != i,
                        forall|v: int| 0 <= v < i ==> #[trigger] visited@[v],
                        forall|v: int|
                            0 <= v < n && #[trigger] visited@[v] ==> before[v] || walked(p, i as int, c as nat, v),
                    decreases k0 - c,
                {
                    visited.set(j, true);
                    proof {
                        assert(walked(p, i as int, (c + 1) as nat, j as int));
                        assert forall|v: int| 0 <= v < n && #[trigger] visited@[v] implies before[v] || walked(p, i as int, (c + 1) as nat, v) by {
                            if v != j && !before[v] {
                                let m = choose|m: nat| m < c && follow(p, i as int, m) == v;
                                assert(m < c + 1);
                            }
                        }
                        lemma_follow_in_range(p, i as int, c as nat);
                    }
                    j = self.map[j];
                    c = c + 1;
                }
                let cycle = c as u64;
                match lcm_checked(l, cycle) {
                    None => {
                        proof {
                            assert forall|k: nat| 0 < k <= u64::MAX implies power_seq(p, k) != identity_seq(p.len()) by {
                                if power_seq(p, k) == identity_seq(p.len()) {
                                    lemma_power_identity(p, k);
                                    assert(periodic_below(p, k, i as int));
                                    assert(follow(p, i as int, k) == i);
                                    lemma_cycle_mod(p, i as int, c as nat, k);
                                    assert(divides(l as int, k as int) && divides(cycle as int, k as int));
                                }
                            }
                        }
                        return None;
                    }
                    Some(m) => {
                        proof {
                            lemma_follow_divides(p, i as int, c as nat, m as nat);
                            assert forall|v: int| 0 <= v < n && #[trigger] visited@[v] implies follow(p, v, m as nat) == v by {
                                if before[v] {
                                    lemma_follow_divides(p, v, l as nat, m as nat);
                                } else {
                                    let w = choose|w: nat| w < c && follow(p, i as int, w) == v;
                                    lemma_follow_add(p, i as int, w, m as nat);
                                    lemma_follow_add(p, i as int, m as nat, w);
                                    assert(w + m as nat == m as nat + w);
                                }
                            }
                            assert forall|k: nat| k > 0 && #[trigger] periodic_below(p, k, i + 1) implies divides(m as int, k as int) by {
                                assert(periodic_below(p, k, i as int));
                                assert(follow(p, i as int, k) == i);
                                lemma_cycle_mod(p, i as int, c as nat, k);
                            }
                        }
                        l = m;
                    }
                }
            } else {
                proof {
                    assert forall|k: nat| k > 0 && #[trigger] periodic_below(p, k, i + 1) implies divides(l as int, k as int) by {
                        assert(periodic_below(p, k, i as int));
                    }
                }
            }
            i = i + 1;
        }
        proof {
            assert forall|v: int| 0 <= v < n implies #[trigger] follow(p, v, l as nat) == v by {
                assert(visited@[v]);
            }
            assert(periodic_below(p, l as nat, n as int));
            lemma_power_identity(p, l as nat);
            assert forall|j: nat| 0 < j < l implies power_seq(p, j) != identity_seq(p.len()) by {
                if power_seq(p, j) == identity_seq(p.len()) {
                    lemma_power_identity(p, j);
                    assert(divides(l as int, j as int));
                    lemma_small_mod(j, l as nat);
                }
            }
        }
        Some(l)
    }

    /// Structural equality over the full index range.
    pub fn equals(&self, q: &Permutation) -> (r: Result<bool, PermError>)
        ensures
            r is Ok <==> self@.len() == q@.len(),
            r matches Ok(b) ==> (b <==> self@ == q@),
            r is Err ==> r->Err_0 == PermError::DimensionMismatch,
    {
        let n = self.map.len();
        if q.map.len() != n {
            return Err(PermError::DimensionMismatch);
        }
        let mut i: usize = 0;
        while i < n
            invariant
                n == self@.len(),
                n == q@.len(),
                0 <= i <= n,
                forall|j: int| 0 <= j < i ==> self@[j] == q@[j],
            decreases n - i,
        {
            if self.map[i] != q.map[i] {
                return Ok(false);
            }
            i = i + 1;
        }
        assert(self@ =~= q@);
        Ok(true)
    }

    /// Whether every position is fixed.
    pub fn is_identity(&self) -> (r: bool)
        ensures
            r <==> self@ == identity_seq(self@.len()),
    {
        let n = self.map.len();
        let mut i: usize = 0;
        while i < n
            invariant
                n == self@.len(),
                0 <= i <= n,
                forall|j: int| 0 <= j < i ==> self@[j] as int == j,
            decreases n - i,
        {
            if self.map[i] != i {
                assert(self@[i as int] != identity_seq(n as nat)[i as int]);
                return false;
            }
            i = i + 1;
        }
        assert(self@ =~= identity_seq(n as nat));
        true
    }

    /// `compose_seq(self, q)` for permutations of equal length.
    pub(crate) fn compose_same(&self, q: &Permutation) -> (r: Permutation)
        requires
            self.wf(),
            q.wf(),
            self@.len() == q@.len(),
        ensures
            r@ == compose_seq(self@, q@),
            r.wf(),
    {
        let n = self.map.len();
        let mut out: Vec<usize> = Vec::new();
        let mut i: usize = 0;
        while i < n
            invariant
                self.wf(),
                q.wf(),
                n == self@.len(),
                q@.len() == n,
                0 <= i <= n,
                out@ == compose_seq(self@, q@).subrange(0, i as int),
            decreases n - i,
        {
            out.push(self.map[q.map[i]]);
            i = i + 1;
            assert(out@ =~= compose_seq(self@, q@).subrange(0, i as int));
        }
        assert(out@ =~= compose_seq(self@, q@));
        let r = Permutation { map: out };
        assert forall|a: int, b: int| 0 <= a < n && 0 <= b < n && a != b implies #[trigger] r@[a] != #[trigger] r@[b] by {
            assert(q@[a] != q@[b]);
        }
        r
    }

    /// The permutation that acts on a labeling as `self` followed by `q`.
    pub fn compose(&self, q: &Permutation) -> (r: Result<Permutation, PermError>)
        requires
            self.wf(),
            q.wf(),
        ensures
            r is Ok <==> self@.len() == q@.len(),
            r is Ok ==> r->Ok_0@ == compose_seq(self@, q@) && r->Ok_0.wf(),
            r is Err ==> r->Err_0 == PermError::DimensionMismatch,
    {
        if self.map.len() != q.map.len() {
            return Err(PermError::DimensionMismatch);
        }
        Ok(self.compose_same(q))
    }
}

} // verus!
