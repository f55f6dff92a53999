//! Size and alignment of a request.
use vstd::prelude::*;

verus! {

/// `n` is a power of two.
pub open spec fn is_pow2(n: int) -> bool
    decreases n,
{
    if n <= 0 {
        false
    } else if n == 1 {
        true
    } else {
        n % 2 == 0 && is_pow2(n / 2)
    }
}

/// The least multiple of `align` that is not below `a`.
pub open spec fn round_up(a: int, align: int) -> int
    recommends
        align > 0,
{
    if a % align == 0 {
        a
    } else {
        a + (align - a % align)
    }
}

/// The least power of two that is not below `n`, starting the search at the power of two `p`.
pub open spec fn pow2_from(p: int, n: int) -> int
    decreases
        (if p < n {
            n - p
        } else {
            0
        }),
{
    if p <= 0 || p >= n {
        p
    } else {
        pow2_from(2 * p, n)
    }
}

/// The least power of two that is not below `n`; 1 for `n` = 0.
pub open spec fn next_pow2(n: int) -> int {
    pow2_from(1, n)
}

/// A power of two divides every larger power of two.
pub proof fn lemma_pow2_divides(a: int, b: int)
    requires
        is_pow2(a),
        is_pow2(b),
        a <= b,
    ensures
        b % a == 0,
    decreases b,
{
    if a == 1 {
    } else {
        let g = a / 2;
        let h = b / 2;
        lemma_pow2_divides(g, h);
        let k = h / g;
        vstd::arithmetic::div_mod::lemma_fundamental_div_mod(h, g);
        assert(b == a * k) by (nonlinear_arith)
            requires
                b == 2 * h,
                a == 2 * g,
                h == g * k,
        ;
        vstd::arithmetic::div_mod::lemma_mod_multiples_basic(k, a);
        assert(a * k == k * a) by (nonlinear_arith);
    }
}

/// A power of two is positive.
pub proof fn lemma_pow2_pos(n: int)
    requires
        is_pow2(n),
    ensures
        n > 0,
{
}

/// Doubling a power of two gives a power of two.
pub proof fn lemma_pow2_double(p: int)
    requires
        is_pow2(p),
    ensures
        is_pow2(2 * p),
{
    assert((2 * p) / 2 == p);
}

/// `pow2_from` yields a power of two that bounds `n`, and the least such above `p`.
pub proof fn lemma_pow2_from(p: int, n: int)
    requires
        is_pow2(p),
        p == 1 || p / 2 < n,
    ensures
        is_pow2(pow2_from(p, n)),
        pow2_from(p, n) >= n,
        pow2_from(p, n) >= p,
        pow2_from(p, n) == 1 || pow2_from(p, n) / 2 < n,
    decreases
        (if p < n {
            n - p
        } else {
            0
        }),
{
    if p >= n {
    } else {
        lemma_pow2_double(p);
        lemma_pow2_from(2 * p, n);
    }
}

/// `next_pow2` yields the least power of two that is not below `n`.
pub proof fn lemma_next_pow2(n: int)
    ensures
        is_pow2(next_pow2(n)),
        next_pow2(n) >= n,
        next_pow2(n) == 1 || next_pow2(n) / 2 < n,
{
    lemma_pow2_from(1, n);
}

/// No power of two that bounds `n` is below `next_pow2(n)`.
pub proof fn lemma_next_pow2_least(n: int, q: int)
    requires
        is_pow2(q),
        n <= q,
    ensures
        next_pow2(n) <= q,
{
    lemma_next_pow2(n);
    let p = next_pow2(n);
    if p > q {
        lemma_pow2_divides(q, p);
        assert(p >= 2 * q) by (nonlinear_arith)
            requires
                p % q == 0,
                p > q,
                q > 0,
        ;
    }
}

/// A power of two is its own `next_pow2`.
pub proof fn lemma_next_pow2_of_pow2(n: int)
    requires
        is_pow2(n),
    ensures
        next_pow2(n) == n,
{
    lemma_next_pow2(n);
    let q = next_pow2(n);
    if q != n {
        lemma_pow2_divides(n, q);
        assert(q >= 2 * n) by (nonlinear_arith)
            requires
                q % n == 0,
                q > n,
                n > 0,
        ;
    }
}

/// `round_up` yields a multiple of `align` in `[a, a + align)`.
pub proof fn lemma_round_up(a: int, align: int)
    requires
        a >= 0,
        align > 0,
    ensures
        round_up(a, align) % align == 0,
        a <= round_up(a, align) < a + align,
{
    let r = a % align;
    if r != 0 {
        assert((a + (align - r)) % align == 0) by (nonlinear_arith)
            requires
                r == a % align,
                align > 0,
                a >= 0,
        ;
    }
}

/// Two multiples of `d` that differ lie at least `d` apart.
pub proof fn lemma_multiples_apart(a: int, b: int, d: int)
    requires
        d > 0,
        0 <= a < b,
        a % d == 0,
        b % d == 0,
    ensures
        b - a >= d,
{
    vstd::arithmetic::div_mod::lemma_fundamental_div_mod(a, d);
    vstd::arithmetic::div_mod::lemma_fundamental_div_mod(b, d);
    let x = a / d;
    let y = b / d;
    assert(y > x) by (nonlinear_arith)
        requires
            d * x < d * y,
            d > 0,
    ;
    assert(d * y - d * x >= d) by (nonlinear_arith)
        requires
            y >= x + 1,
            d > 0,
    ;
}

/// `round_up(a, align)` is the least multiple of `align` that is not below `a`.
pub proof fn lemma_round_up_least(a: int, align: int, b: int)
    requires
        a >= 0,
        align > 0,
        b >= a,
        b % align == 0,
    ensures
        b >= round_up(a, align),
{
    lemma_round_up(a, align);
    let r = round_up(a, align);
    if b < r {
        lemma_multiples_apart(b, r, align);
    }
}

/// The size and alignment of a block of memory. The alignment is a power of
/// two, and the size, rounded up to the alignment, fits in an `isize`.
#[derive(Clone, Copy, PartialEq, Eq, Debug, Structural)]
pub struct Layout {
    size: usize,
    align: usize,
}

/// Why a pair of size and alignment is no layout.
#[derive(Clone, Copy, PartialEq, Eq, Debug, Structural)]
pub struct LayoutError {}

impl Layout {
    /// Whether `size` and `align` make a layout.
    pub open spec fn valid(size: int, align: int) -> bool {
        is_pow2(align) && round_up(size, align) <= isize::MAX
    }

    pub closed spec fn spec_size(self) -> int {
        self.size as int
    }

    pub closed spec fn spec_align(self) -> int {
        self.align as int
    }

    /// The alignment, as a machine word.
    pub closed spec fn align_value(self) -> usize {
        self.align
    }

    /// The invariant of every layout.
    pub open spec fn wf(self) -> bool {
        &&& Self::valid(self.spec_size(), self.spec_align())
        &&& 0 <= self.spec_size() <= usize::MAX
        &&& 0 < self.spec_align() <= usize::MAX
        &&& self.spec_align() == self.align_value()
    }

    /// Builds a layout, or fails where `align` is no power of two or `size` is too large for it.
    pub fn from_size_align(size: usize, align: usize) -> (r: Result<Layout, LayoutError>)
        ensures
            r is Ok <==> Self::valid(size as int, align as int),
            r matches Ok(l) ==> l.spec_size() == size && l.spec_align() == align && l.wf(),
    {
        if !is_power_of_two(align) {
            return Err(LayoutError {});
        }
        proof {
            lemma_round_up(size as int, align as int);
        }
        let rem: usize = size % align;
        let limit: usize = isize::MAX as usize;
        if rem == 0 {
            if size > limit {
                return Err(LayoutError {});
            }
        } else {
            if size > limit || align - rem > limit - size {
                return Err(LayoutError {});
            }
        }
        proof {
            lemma_pow2_pos(align as int);
        }
        Ok(Layout { size, align })
    }

    /// The number of bytes asked for.
    pub fn size(&self) -> (r: usize)
        ensures
            r == self.spec_size(),
    {
        self.size
    }

    /// The alignment asked for.
    pub fn align(&self) -> (r: usize)
        ensures
            r == self.spec_align(),
            r == self.align_value(),
    {
        self.align
    }
}

/// Tests whether `n` is a power of two.
pub fn is_power_of_two(n: usize) -> (r: bool)
    ensures
        r == is_pow2(n as int),
{
    if n == 0 {
        return false;
    }
    let mut m: usize = n;
    while m % 2 == 0
        invariant
            m > 0,
            is_pow2(m as int) == is_pow2(n as int),
        decreases m,
    {
        m = m / 2;
    }
    m == 1
}

/// The least power of two that is not below `n`, or `None` where it does not fit in a `usize`.
pub fn next_power_of_two(n: usize) -> (r: Option<usize>)
    ensures
        r matches Some(p) ==> p == next_pow2(n as int),
        r is None <==> next_pow2(n as int) > usize::MAX,
{
    let mut p: usize = 1;
    proof {
        lemma_next_pow2(n as int);
    }
    while p < n
        invariant
            is_pow2(p as int),
            p == 1 || p / 2 < n,
            pow2_from(p as int, n as int) == next_pow2(n as int),
        decreases
            (if p < n {
                n - p
            } else {
                0
            }),
    {
        if p > usize::MAX / 2 {
            proof {
                lemma_pow2_double(p as int);
                lemma_pow2_from(2 * p, n as int);
            }
            return None;
        }
        proof {
            lemma_pow2_double(p as int);
        }
        p = p * 2;
    }
    Some(p)
}

/// The least multiple of `align` that is not below `a`, or `None` where it does not fit in a `usize`.
pub fn next_multiple_of(a: usize, align: usize) -> (r: Option<usize>)
    requires
        align > 0,
    ensures
        r matches Some(m) ==> m == round_up(a as int, align as int),
        r is None <==> round_up(a as int, align as int) > usize::MAX,
{
    let rem: usize = a % align;
    if rem == 0 {
        Some(a)
    } else if align - rem > usize::MAX - a {
        None
    } else {
        Some(a + (align - rem))
    }
}

} // verus!
