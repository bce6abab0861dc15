use vstd::prelude::*;

use crate::strs::{decimal, digit_char, push_char, push_decimal, push_repeat, repeat};
use crate::tally::{sum_below, lemma_sum_below_ext};
use crate::layout::min;
use vstd::string::StringSliceAdditionalSpecFns;
use vstd::utf8::{encode_utf8, is_char_boundary};

verus! {

pub const GB: u64 = 1_073_741_824;

pub const MB: u64 = 1_048_576;

/// `a / d` rounded to the nearest whole number, halves to the even neighbour.
pub open spec fn round_half_even(a: int, d: int) -> int {
    let q = a / d;
    let r = a % d;
    if 2 * r > d || (2 * r == d && q % 2 == 1) {
        q + 1
    } else {
        q
    }
}

/// The spacing, a power of two from `u` up, at which a 64-bit float holds
/// numbers around `b` (floats keep 53 significant bits).
pub open spec fn f64_unit_from(b: int, u: int) -> int
    decreases 4096 - u,
{
    if u <= 0 || u >= 2048 || b / u < 0x20_0000_0000_0000 {
        u
    } else {
        f64_unit_from(b, 2 * u)
    }
}

/// The 64-bit float nearest to `b` (halves to even), as `b as f64` gives it.
pub open spec fn as_f64(b: int) -> int {
    let u = f64_unit_from(b, 1);
    round_half_even(b, u) * u
}

/// A byte count in gibibytes with one decimal when it is at least 1 GiB,
/// and otherwise in whole mebibytes, each rounded to the nearest, halves to even.
pub open spec fn spec_format_bytes(bytes: u64) -> Seq<char> {
    if bytes >= GB {
        let tenths = round_half_even(as_f64(bytes as int) * 10, GB as int);
        decimal((tenths / 10) as nat) + "."@ + seq![digit_char(tenths % 10)] + " GB"@
    } else {
        decimal(round_half_even(bytes as int, MB as int) as nat) + " MB"@
    }
}

fn round_div(a: u128, d: u128) -> (r: u128)
    requires
        d > 0,
        d <= 0x1_0000_0000,
        a < 0x1_0000_0000_0000_0000_0000_0000,
    ensures
        r as int == round_half_even(a as int, d as int),
{
    let q = a / d;
    let r = a % d;
    if 2 * r > d || (2 * r == d && q % 2 == 1) {
        q + 1
    } else {
        q
    }
}

/// `bytes as f64`, held exactly as an integer.
fn nearest_f64(bytes: u64) -> (r: u128)
    ensures
        r as int == as_f64(bytes as int),
        r <= 0x1_0000_0000_0000_0800,
{
    let mut u: u64 = 1;
    while u < 2048 && bytes / u >= 0x20_0000_0000_0000
        invariant
            u == 1 || u == 2 || u == 4 || u == 8 || u == 16 || u == 32 || u == 64 || u == 128 || u == 256
                || u == 512 || u == 1024 || u == 2048,
            f64_unit_from(bytes as int, u as int) == f64_unit_from(bytes as int, 1),
        decreases 4096 - u,
    {
        u = 2 * u;
    }
    assert(bytes / u < 0x20_0000_0000_0000) by (nonlinear_arith)
        requires
            u >= 2048 || bytes / u < 0x20_0000_0000_0000,
            bytes < 0x1_0000_0000_0000_0000,
            u >= 1,
    {
        if u >= 2048 {
            assert(bytes / u <= bytes / 2048);
        }
    }
    let q = round_div(bytes as u128, u as u128);
    assert(q as int * u as int <= 0x1_0000_0000_0000_0800) by (nonlinear_arith)
        requires
            q as int == round_half_even(bytes as int, u as int),
            1 <= u <= 2048,
            bytes < 0x1_0000_0000_0000_0000,
            bytes / u < 0x20_0000_0000_0000,
    {
        let qq = bytes as int / u as int;
        assert(qq * u <= bytes);
        assert(q <= qq + 1);
        assert(q * u <= qq * u + u);
    }
    q * (u as u128)
}

/// Formats a byte count, as `{:.1} GB` of gibibytes from 1 GiB up and as
/// `{:.0} MB` of mebibytes below.
pub fn format_bytes(bytes: u64) -> (r: String)
    ensures
        r@ == spec_format_bytes(bytes),
{
    let mut s = String::new();
    if bytes >= GB {
        let f = nearest_f64(bytes);
        let tenths = round_div(f * 10, GB as u128);
        assert(tenths < 0x1_0000_0000_0000_0000) by (nonlinear_arith)
            requires
                tenths as int == round_half_even(f as int * 10, GB as int),
                f <= 0x1_0000_0000_0000_0800,
        ;
        let t = tenths as u64;
        push_decimal(&mut s, t / 10);
        s.append(".");
        push_char(&mut s, if t % 10 < 10 { (0x30u8 + (t % 10) as u8) as char } else { '0' });
        s.append(" GB");
    } else {
        let m = round_div(bytes as u128, MB as u128) as u64;
        push_decimal(&mut s, m);
        s.append(" MB");
    }
    assert(s@ =~= spec_format_bytes(bytes));
    s
}

/// A process name as it fills a 12-character cell: its first 12 bytes when
/// it is longer, or else the name padded with spaces to 12 characters.
pub fn process_name_cell(name: &str) -> (r: String)
    requires
        encode_utf8(name@).len() > 12 ==> is_char_boundary(encode_utf8(name@), 12),
    ensures
        encode_utf8(name@).len() > 12 ==> encode_utf8(r@) == encode_utf8(name@).take(12),
        encode_utf8(name@).len() <= 12 ==> r@ == name@ + repeat(' ', 12 - name@.len()),
{
    if name.as_bytes().len() > 12 {
        let (head, _) = name.split_at(12);
        let r = head.to_owned();
        assert(head.spec_bytes() == encode_utf8(head@));
        assert(name.spec_bytes() == encode_utf8(name@));
        assert(encode_utf8(name@).take(12) =~= encode_utf8(name@).subrange(0, 12));
        r
    } else {
        let mut r = String::from_str(name);
        let n = name.unicode_len();
        push_repeat(&mut r, ' ', 12usize.saturating_sub(n));
        r
    }
}

/// The two parts of a usage bar `width` cells wide with `filled` cells
/// filled: that many full blocks, then light shade for the rest.
pub fn bar_cells(filled: u16, width: u16) -> (r: (String, String))
    ensures
        r.0@ == repeat('\u{2588}', filled as int),
        r.1@ == repeat('\u{2591}', width - filled),
{
    let mut full = String::new();
    push_repeat(&mut full, '\u{2588}', filled as usize);
    let mut rest = String::new();
    push_repeat(&mut rest, '\u{2591}', width.saturating_sub(filled) as usize);
    assert(Seq::<char>::empty() + repeat('\u{2588}', filled as int) =~= repeat('\u{2588}', filled as int));
    assert(Seq::<char>::empty() + repeat('\u{2591}', width - filled) =~= repeat('\u{2591}', width - filled));
    (full, rest)
}

/// Process `a` comes before process `b` when the busiest come first: it is
/// busier, or as busy and listed earlier (the order of a stable sort).
pub open spec fn busier(keys: Seq<u32>, a: int, b: int) -> bool {
    keys[a] > keys[b] || (keys[a] == keys[b] && a < b)
}

pub open spec fn ahead_term(keys: Seq<u32>, i: int) -> spec_fn(int) -> int {
    |j: int| if busier(keys, j, i) { 1int } else { 0int }
}

/// The place of process `i` when the busiest come first (0 for the busiest):
/// how many processes come before it.
pub open spec fn busy_rank(keys: Seq<u32>, i: int) -> int {
    sum_below(keys.len() as int, ahead_term(keys, i))
}

proof fn lemma_sum_zeros(n: int, f: spec_fn(int) -> int)
    requires
        forall|j: int| 0 <= j < n ==> #[trigger] f(j) == 0,
    ensures
        sum_below(n, f) == 0,
    decreases n,
{
    if n > 0 {
        lemma_sum_zeros(n - 1, f);
    }
}

proof fn lemma_sum_ones(n: int, f: spec_fn(int) -> int)
    requires
        n >= 0,
        forall|j: int| 0 <= j < n ==> #[trigger] f(j) == 1,
    ensures
        sum_below(n, f) == n,
    decreases n,
{
    if n > 0 {
        lemma_sum_ones(n - 1, f);
    }
}

/// Adding one to a single term below `n` adds one to the sum.
proof fn lemma_sum_plus_point(n: int, f: spec_fn(int) -> int, g: spec_fn(int) -> int, x: int)
    requires
        forall|j: int| 0 <= j < n ==> #[trigger] g(j) == f(j) + (if j == x { 1int } else { 0int }),
    ensures
        sum_below(n, g) == sum_below(n, f) + (if 0 <= x < n { 1int } else { 0int }),
    decreases n,
{
    if n > 0 {
        lemma_sum_plus_point(n - 1, f, g, x);
    }
}

/// Process `k` may still be chosen after `p` processes, the last of them `prev`.
spec fn still_open(keys: Seq<u32>, p: int, prev: int, k: int) -> bool {
    p == 0 || busier(keys, prev, k)
}

fn is_busier(keys: &[u32], a: usize, b: usize) -> (r: bool)
    requires
        a < keys@.len(),
        b < keys@.len(),
    ensures
        r == busier(keys@, a as int, b as int),
{
    keys[a] > keys[b] || (keys[a] == keys[b] && a < b)
}

/// The first `count` processes when the busiest come first, as positions in
/// `keys` (how busy each process is): what a stable sort from busiest to
/// idlest and taking the first `count` gives.
pub fn busiest(keys: &[u32], count: usize) -> (r: Vec<usize>)
    ensures
        r@.len() == min(count as int, keys@.len() as int),
        forall|p: int| 0 <= p < r@.len() ==> r@[p] < keys@.len() && busy_rank(keys@, r@[p] as int) == p,
{
    let ghost ks = keys@;
    let n = keys.len();
    let m = if count < n { count } else { n };
    let mut out: Vec<usize> = Vec::new();
    let mut prev: usize = 0;
    for p in 0..m
        invariant
            ks == keys@,
            n == ks.len(),
            m <= n,
            m == min(count as int, n as int),
            out@.len() == p,
            forall|q: int| 0 <= q < p ==> out@[q] < n && busy_rank(ks, out@[q] as int) == q,
            p > 0 ==> prev == out@[p - 1],
    {
        let mut best: usize = n;
        for j in 0..n
            invariant
                ks == keys@,
                n == ks.len(),
                p < m <= n,
                out@.len() == p,
                forall|q: int| 0 <= q < p ==> out@[q] < n && busy_rank(ks, out@[q] as int) == q,
                p > 0 ==> prev == out@[p - 1],
                best == n || (best < j && still_open(ks, p as int, prev as int, best as int)),
                forall|k: int|
                    0 <= k < j && #[trigger] still_open(ks, p as int, prev as int, k) ==> best < n && (k == best
                        || busier(ks, best as int, k)),
        {
            let ghost old_best = best;
            if p == 0 || is_busier(keys, prev, j) {
                if best == n || is_busier(keys, j, best) {
                    best = j;
                }
            }
            proof {
                assert forall|k: int|
                    0 <= k < j + 1 && #[trigger] still_open(ks, p as int, prev as int, k) implies best < n && (k
                        == best || busier(ks, best as int, k)) by {
                    if k < j {
                        assert(old_best < n && (k == old_best || busier(ks, old_best as int, k)));
                    }
                }
            }
        }
        proof {
            if p > 0 {
                let pv = prev as int;
                assert(busy_rank(ks, pv) == p - 1);
                let g = |k: int| if busier(ks, k, pv) || k == pv { 1int } else { 0int };
                lemma_sum_plus_point(n as int, ahead_term(ks, pv), g, pv);
                if best == n {
                    assert forall|k: int| 0 <= k < n implies #[trigger] g(k) == 1 by {
                        if !busier(ks, k, pv) && k != pv {
                            assert(still_open(ks, p as int, pv, k));
                        }
                    }
                    lemma_sum_ones(n as int, g);
                    assert(false);
                }
                let b = best as int;
                assert forall|k: int| 0 <= k < n implies #[trigger] ahead_term(ks, b)(k) == g(k) by {
                    if busier(ks, k, b) && !busier(ks, k, pv) && k != pv {
                        assert(still_open(ks, p as int, pv, k));
                    }
                }
                lemma_sum_below_ext(n as int, ahead_term(ks, b), g);
                assert(busy_rank(ks, b) == p);
            } else {
                assert(still_open(ks, p as int, prev as int, 0));
                let b = best as int;
                assert forall|k: int| 0 <= k < n implies #[trigger] ahead_term(ks, b)(k) == 0 by {
                    if busier(ks, k, b) {
                        assert(still_open(ks, 0, prev as int, k));
                    }
                }
                lemma_sum_zeros(n as int, ahead_term(ks, b));
                assert(busy_rank(ks, b) == 0);
            }
            assert(best < n && busy_rank(ks, best as int) == p);
        }
        let ghost before = out@;
        out.push(best);
        assert(forall|q: int| 0 <= q < p ==> out@[q] == before[q]);
        prev = best;
    }
    out
}

} // verus!
