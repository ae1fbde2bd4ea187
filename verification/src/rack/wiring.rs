use vstd::prelude::*;

verus! {

/// The greatest common divisor, by Euclid's algorithm.
pub open spec fn gcd(a: nat, b: nat) -> nat
    decreases b,
{
    if b == 0 {
        a
    } else {
        gcd(b, a % b)
    }
}

/// Wraps `gcd::euclid_usize`, which swaps its arguments so that the first is
/// the larger and then replaces `(a, b)` by `(b, a % b)` until `b` is 0: the
/// Euclidean algorithm, whose result is `gcd` above.
#[verifier::external_body]
fn euclid_usize(a: usize, b: usize) -> (g: usize)
    ensures
        g == gcd(a as nat, b as nat),
{
    gcd::euclid_usize(a, b)
}

/// The gcd of two numbers, not both 0, is positive.
pub proof fn lemma_gcd_positive(a: nat, b: nat)
    requires
        a > 0 || b > 0,
    ensures
        gcd(a, b) > 0,
    decreases b,
{
    if b > 0 {
        lemma_gcd_positive(b, a % b);
    }
}

/// The gcd of two numbers divides both.
pub proof fn lemma_gcd_divides(a: nat, b: nat)
    requires
        gcd(a, b) > 0,
    ensures
        a % gcd(a, b) == 0,
        b % gcd(a, b) == 0,
    decreases b,
{
    let g = gcd(a, b);
    if b == 0 {
        vstd::arithmetic::div_mod::lemma_mod_self_0(a as int);
        vstd::arithmetic::div_mod::lemma_small_mod(0, a);
    } else {
        let r = a % b;
        lemma_gcd_divides(b, r);
        assert(g == gcd(b, r));
        vstd::arithmetic::div_mod::lemma_fundamental_div_mod(a as int, b as int);
        vstd::arithmetic::div_mod::lemma_fundamental_div_mod(b as int, g as int);
        vstd::arithmetic::div_mod::lemma_fundamental_div_mod(r as int, g as int);
        let q = a / b;
        let m = b / g;
        let n = r / g;
        assert(a == g * (m * q + n)) by (nonlinear_arith)
            requires
                a == b * q + r,
                b == g * m,
                r == g * n,
        ;
        let k: int = (m * q + n) as int;
        vstd::arithmetic::div_mod::lemma_mod_multiples_basic(k, g as int);
        assert(k * g == g * k) by (nonlinear_arith);
        assert(a as int == k * g);
    }
}

/// How one stage of a rack is wired: the senders of the stage before (the
/// canons) and the receivers of the stage after (the targets) fall into
/// `groups` groups of equal size; each canon feeds every target of its group
/// and no other.
pub struct StageLayout {
    pub groups: usize,
    pub canons_per_group: usize,
    pub targets_per_group: usize,
}

impl StageLayout {
    pub open spec fn canon_count(self) -> nat {
        (self.groups * self.canons_per_group) as nat
    }

    pub open spec fn target_count(self) -> nat {
        (self.groups * self.targets_per_group) as nat
    }

    /// The group that canon `canon` (or target `target`) belongs to.
    pub open spec fn canon_group(self, canon: nat) -> nat {
        canon / (self.canons_per_group as nat)
    }

    pub open spec fn target_group(self, target: nat) -> nat {
        target / (self.targets_per_group as nat)
    }

    /// Canon `canon` sends into target `target`.
    pub open spec fn feeds(self, canon: nat, target: nat) -> bool {
        &&& canon < self.canon_count()
        &&& target < self.target_count()
        &&& self.canon_group(canon) == self.target_group(target)
    }

    /// The layout of a stage between `prev` canons and `curr` targets: as many
    /// groups as their gcd.
    pub open spec fn spec_of(prev: nat, curr: nat) -> StageLayout {
        let g = gcd(prev, curr);
        StageLayout {
            groups: g as usize,
            canons_per_group: (prev / g) as usize,
            targets_per_group: (curr / g) as usize,
        }
    }

    /// The layout of the stage between `prev` workers and `curr` workers (not
    /// both 0, whose gcd would be 0).
    pub fn new(prev: usize, curr: usize) -> (layout: StageLayout)
        requires
            prev >= 1 || curr >= 1,
        ensures
            layout == StageLayout::spec_of(prev as nat, curr as nat),
            layout.groups >= 1,
            layout.canon_count() == prev,
            layout.target_count() == curr,
            prev >= 1 ==> layout.canons_per_group >= 1,
            curr >= 1 ==> layout.targets_per_group >= 1,
    {
        let groups = euclid_usize(prev, curr);
        proof {
            lemma_stage_counts(prev, curr);
        }
        StageLayout { groups, canons_per_group: prev / groups, targets_per_group: curr / groups }
    }
}

/// The canons of a stage's group `h` are `h * p .. h * p + p`: a number in that
/// range divided by `p` is `h`, and one outside is not.
pub proof fn lemma_group_of(x: nat, h: nat, p: nat)
    requires
        p >= 1,
    ensures
        x / p == h <==> h * p <= x < h * p + p,
        h * p <= x < h * p + p ==> x % p == x - h * p,
        x < h * p ==> x / p < h,
{
    if h * p <= x < h * p + p {
        vstd::arithmetic::div_mod::lemma_fundamental_div_mod_converse(x as int, p as int, h as int, x - h * p);
    }
    if x < h * p {
        vstd::arithmetic::div_mod::lemma_fundamental_div_mod(x as int, p as int);
        if x / p >= h {
            vstd::arithmetic::mul::lemma_mul_inequality(h as int, (x / p) as int, p as int);
            vstd::arithmetic::mul::lemma_mul_is_commutative(p as int, (x / p) as int);
            vstd::arithmetic::div_mod::lemma_mod_pos_bound(x as int, p as int);
        }
    }
    vstd::arithmetic::div_mod::lemma_fundamental_div_mod(x as int, p as int);
    vstd::arithmetic::div_mod::lemma_mod_bound(x as int, p as int);
    let q = x / p;
    if q == h {
        assert(h * p <= x < h * p + p) by (nonlinear_arith)
            requires
                x == p * q + x % p,
                0 <= x % p < p,
                q == h,
        ;
    }
    if h * p <= x < h * p + p {
        if q < h {
            assert(false) by (nonlinear_arith)
                requires
                    x == p * q + x % p,
                    0 <= x % p < p,
                    q < h,
                    h * p <= x,
                    p >= 1,
            ;
        }
        if q > h {
            assert(false) by (nonlinear_arith)
                requires
                    x == p * q + x % p,
                    0 <= x % p < p,
                    q > h,
                    x < h * p + p,
                    p >= 1,
            ;
        }
    }
}

/// Fan-out: in the layout of a stage between `prev` and `curr` workers, canon
/// `k` feeds exactly the `curr / gcd` consecutive targets of its group.
pub proof fn lemma_stage_fan_out(prev: usize, curr: usize, k: nat, t: nat)
    requires
        prev >= 1,
        curr >= 1,
        k < prev,
        t < curr,
    ensures
        ({
            let layout = StageLayout::spec_of(prev as nat, curr as nat);
            let c = layout.targets_per_group as nat;
            let h = layout.canon_group(k);
            layout.feeds(k, t) <==> h * c <= t < h * c + c
        }),
{
    lemma_stage_counts(prev, curr);
    let layout = StageLayout::spec_of(prev as nat, curr as nat);
    lemma_group_of(t, layout.canon_group(k), layout.targets_per_group as nat);
}

/// Fan-in: in the layout of a stage between `prev` and `curr` workers, target
/// `t` is fed by exactly the `prev / gcd` consecutive canons of its group.
pub proof fn lemma_stage_fan_in(prev: usize, curr: usize, k: nat, t: nat)
    requires
        prev >= 1,
        curr >= 1,
        k < prev,
        t < curr,
    ensures
        ({
            let layout = StageLayout::spec_of(prev as nat, curr as nat);
            let p = layout.canons_per_group as nat;
            let h = layout.target_group(t);
            layout.feeds(k, t) <==> h * p <= k < h * p + p
        }),
{
    lemma_stage_counts(prev, curr);
    let layout = StageLayout::spec_of(prev as nat, curr as nat);
    lemma_group_of(k, layout.target_group(t), layout.canons_per_group as nat);
}

/// The layout of a stage between `prev` and `curr` workers (not both 0) has
/// `prev` canons and `curr` targets, in at least one group; a group has at
/// least one canon when there are canons, and one target when there are
/// targets.
pub proof fn lemma_stage_counts(prev: usize, curr: usize)
    requires
        prev >= 1 || curr >= 1,
    ensures
        ({
            let layout = StageLayout::spec_of(prev as nat, curr as nat);
            &&& layout.groups >= 1
            &&& layout.canon_count() == prev
            &&& layout.target_count() == curr
            &&& prev >= 1 ==> layout.canons_per_group >= 1
            &&& curr >= 1 ==> layout.targets_per_group >= 1
        }),
{
    let g = gcd(prev as nat, curr as nat);
    lemma_gcd_commutes(prev as nat, curr as nat);
    lemma_gcd_positive(prev as nat, curr as nat);
    if prev >= 1 {
        lemma_split_evenly(prev as nat, curr as nat);
    } else {
        assert(g == curr);
        assert(0nat / g == 0);
        assert(g * 0 == 0);
    }
    if curr >= 1 {
        lemma_split_evenly(curr as nat, prev as nat);
    } else {
        assert(g == prev);
        assert(0nat / g == 0);
        assert(g * 0 == 0);
    }
    assert(g <= usize::MAX);
    assert(prev as nat / g <= prev) by {
        vstd::arithmetic::div_mod::lemma_div_is_ordered_by_denominator(prev as int, 1, g as int);
    }
    assert(curr as nat / g <= curr) by {
        vstd::arithmetic::div_mod::lemma_div_is_ordered_by_denominator(curr as int, 1, g as int);
    }
}

/// `gcd(a, b) == gcd(b, a)`.
proof fn lemma_gcd_commutes(a: nat, b: nat)
    ensures
        gcd(a, b) == gcd(b, a),
{
    if a == b {
    } else if b == 0 {
        assert(gcd(0, a) == gcd(a, 0nat % a)) by {
            vstd::arithmetic::div_mod::lemma_small_mod(0, a);
        }
    } else if a == 0 {
        vstd::arithmetic::div_mod::lemma_small_mod(0, b);
    } else if a < b {
        vstd::arithmetic::div_mod::lemma_small_mod(a, b);
        assert(gcd(a, b) == gcd(b, a % b));
    } else {
        vstd::arithmetic::div_mod::lemma_small_mod(b, a);
        assert(gcd(b, a) == gcd(a, b % a));
    }
}

/// `a` (at least 1) falls into `gcd(a, b)` equal parts of `a / gcd(a, b)`,
/// each at least 1.
proof fn lemma_split_evenly(a: nat, b: nat)
    requires
        a >= 1,
    ensures
        gcd(a, b) >= 1,
        gcd(a, b) <= a,
        a / gcd(a, b) >= 1,
        gcd(a, b) * (a / gcd(a, b)) == a,
{
    let g = gcd(a, b);
    lemma_gcd_positive(a, b);
    lemma_gcd_divides(a, b);
    vstd::arithmetic::div_mod::lemma_fundamental_div_mod(a as int, g as int);
    vstd::arithmetic::div_mod::lemma_mod_is_zero(a, g);
    vstd::arithmetic::div_mod::lemma_div_pos_is_pos(a as int, g as int);
    if a / g == 0 {
        assert(g * (a / g) == 0) by (nonlinear_arith)
            requires
                a / g == 0,
        ;
    }
}

} // verus!
