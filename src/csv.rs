use vstd::prelude::*;

use crate::collector::{diff_of, Sample, SampleCollector};
use vstd::string::StringSliceAdditionalSpecFns;

verus! {

/// The decimal digits of `n`, most significant first, as ASCII bytes.
pub open spec fn digits(n: nat) -> Seq<u8>
    decreases n,
{
    if n < 10 {
        seq![(48 + n) as u8]
    } else {
        digits(n / 10).push((48 + n % 10) as u8)
    }
}

/// An ASCII decimal digit.
pub open spec fn is_digit(b: u8) -> bool {
    48 <= b <= 57
}

/// The number that a run of ASCII decimal digits spells.
pub open spec fn decimal_value(s: Seq<u8>) -> nat
    decreases s.len(),
{
    if s.len() == 0 {
        0
    } else {
        decimal_value(s.drop_last()) * 10 + (s.last() - 48) as nat
    }
}

/// The header line of the CSV dump.
pub open spec fn csv_header() -> Seq<u8> {
    "wire_rtt, loop_rtt, cycles_diff\n".spec_bytes()
}

/// The line of one sample: wire, loop and their saturating difference.
pub open spec fn csv_row(s: Sample) -> Seq<u8> {
    digits(s.wire_rtt as nat) + seq![44u8] + digits(s.loop_rtt as nat) + seq![44u8] + digits(
        diff_of(s) as nat,
    ) + seq![10u8]
}

/// The lines of the samples, in order.
pub open spec fn csv_rows(s: Seq<Sample>) -> Seq<u8>
    decreases s.len(),
{
    if s.len() == 0 {
        Seq::empty()
    } else {
        csv_row(s[0]) + csv_rows(s.drop_first())
    }
}

/// The CSV dump of the samples: the header, then one line per sample.
pub open spec fn csv_text(s: Seq<Sample>) -> Seq<u8> {
    csv_header() + csv_rows(s)
}

/// Every byte of `digits(n)` is a digit, and there is at least one.
pub proof fn lemma_digits_are_digits(n: nat)
    ensures
        digits(n).len() >= 1,
        forall|i: int| 0 <= i < digits(n).len() ==> is_digit(#[trigger] digits(n)[i]),
    decreases n,
{
    if n >= 10 {
        lemma_digits_are_digits(n / 10);
    }
}

/// The digits of `n` spell `n`.
pub proof fn lemma_digits_value(n: nat)
    ensures
        decimal_value(digits(n)) == n,
    decreases n,
{
    if n >= 10 {
        lemma_digits_value(n / 10);
        assert(digits(n).drop_last() =~= digits(n / 10));
        assert(n == (n / 10) * 10 + n % 10) by (nonlinear_arith);
        let d = digits(n);
        assert(d.last() == (48 + n % 10) as u8);
        assert(d.last() - 48 == n % 10);
        assert(decimal_value(d) == decimal_value(d.drop_last()) * 10 + n % 10);
    } else {
        let d = digits(n);
        assert(d.drop_last() =~= Seq::<u8>::empty());
        assert(d.last() - 48 == n);
        assert(decimal_value(d) == decimal_value(d.drop_last()) * 10 + n);
    }
}

/// A number followed by a separator that is no digit can be read back from
/// the front: equal texts of this shape have equal numbers and equal rests.
pub proof fn lemma_number_split(a: nat, b: nat, sep: u8, x: Seq<u8>, y: Seq<u8>)
    requires
        !is_digit(sep),
        digits(a) + seq![sep] + x == digits(b) + seq![sep] + y,
    ensures
        a == b,
        x == y,
{
    let da = digits(a);
    let db = digits(b);
    let l = da + seq![sep] + x;
    let r = db + seq![sep] + y;
    lemma_digits_are_digits(a);
    lemma_digits_are_digits(b);
    if da.len() < db.len() {
        assert(l[da.len() as int] == sep);
        assert(r[da.len() as int] == db[da.len() as int]);
    } else if db.len() < da.len() {
        assert(r[db.len() as int] == sep);
        assert(l[db.len() as int] == da[db.len() as int]);
    } else {
        assert(da =~= l.subrange(0, da.len() as int));
        assert(db =~= r.subrange(0, db.len() as int));
        lemma_digits_value(a);
        lemma_digits_value(b);
        assert(x =~= l.subrange(da.len() as int + 1, l.len() as int));
        assert(y =~= r.subrange(db.len() as int + 1, r.len() as int));
    }
}

/// One line read back from the front: equal texts that start with the lines
/// of two samples have equal samples and equal rests.
#[verifier::spinoff_prover]
pub proof fn lemma_row_split(s: Sample, t: Sample, x: Seq<u8>, y: Seq<u8>)
    requires
        csv_row(s) + x == csv_row(t) + y,
    ensures
        s == t,
        x == y,
{
    let comma = 44u8;
    let nl = 10u8;
    let xs2 = digits(diff_of(s) as nat) + seq![nl] + x;
    let ys2 = digits(diff_of(t) as nat) + seq![nl] + y;
    let xs1 = digits(s.loop_rtt as nat) + seq![comma] + xs2;
    let ys1 = digits(t.loop_rtt as nat) + seq![comma] + ys2;
    assert(csv_row(s) + x =~= digits(s.wire_rtt as nat) + seq![comma] + xs1);
    assert(csv_row(t) + y =~= digits(t.wire_rtt as nat) + seq![comma] + ys1);
    lemma_number_split(s.wire_rtt as nat, t.wire_rtt as nat, comma, xs1, ys1);
    lemma_number_split(s.loop_rtt as nat, t.loop_rtt as nat, comma, xs2, ys2);
    lemma_number_split(diff_of(s) as nat, diff_of(t) as nat, nl, x, y);
}

/// The lines of samples determine the samples.
pub proof fn lemma_rows_injective(a: Seq<Sample>, b: Seq<Sample>)
    requires
        csv_rows(a) == csv_rows(b),
    ensures
        a == b,
    decreases a.len(),
{
    if a.len() == 0 && b.len() == 0 {
        assert(a =~= b);
    } else if a.len() == 0 {
        lemma_digits_are_digits(b[0].wire_rtt as nat);
        assert(csv_rows(b).len() >= 1);
    } else if b.len() == 0 {
        lemma_digits_are_digits(a[0].wire_rtt as nat);
        assert(csv_rows(a).len() >= 1);
    } else {
        lemma_row_split(a[0], b[0], csv_rows(a.drop_first()), csv_rows(b.drop_first()));
        lemma_rows_injective(a.drop_first(), b.drop_first());
        assert(a =~= seq![a[0]] + a.drop_first());
        assert(b =~= seq![b[0]] + b.drop_first());
    }
}

/// The CSV dump is lossless: two collections of samples with the same dump
/// are the same samples in the same order.
pub proof fn lemma_csv_round_trip(a: Seq<Sample>, b: Seq<Sample>)
    requires
        csv_text(a) == csv_text(b),
    ensures
        a == b,
{
    let h = csv_header().len() as int;
    assert(csv_rows(a) =~= csv_text(a).subrange(h, csv_text(a).len() as int));
    assert(csv_rows(b) =~= csv_text(b).subrange(h, csv_text(b).len() as int));
    lemma_rows_injective(a, b);
}

/// A run of digits as `digits` writes it: nonempty, and no leading zero
/// unless the run is a single zero.
pub open spec fn canonical(s: Seq<u8>) -> bool {
    &&& s.len() >= 1
    &&& forall|i: int| 0 <= i < s.len() ==> is_digit(#[trigger] s[i])
    &&& (s.len() > 1 ==> s[0] != 48)
}

/// A run of digits that spells zero is all zeros.
proof fn lemma_value_zero(s: Seq<u8>)
    requires
        forall|i: int| 0 <= i < s.len() ==> is_digit(#[trigger] s[i]),
        decimal_value(s) == 0,
    ensures
        forall|i: int| 0 <= i < s.len() ==> #[trigger] s[i] == 48,
    decreases s.len(),
{
    if s.len() > 0 {
        let p = s.drop_last();
        assert(decimal_value(p) * 10 + (s.last() - 48) == 0);
        assert(decimal_value(p) == 0 && s.last() == 48) by (nonlinear_arith)
            requires
                decimal_value(p) * 10 + (s.last() - 48) == 0,
                decimal_value(p) >= 0,
                s.last() >= 48,
        ;
        lemma_value_zero(p);
        assert forall|i: int| 0 <= i < s.len() implies #[trigger] s[i] == 48 by {
            if i < s.len() - 1 {
                assert(s[i] == p[i]);
            }
        }
    }
}

/// A canonical run of digits is what `digits` writes for the number it spells.
pub proof fn lemma_canonical_digits(s: Seq<u8>)
    requires
        canonical(s),
    ensures
        digits(decimal_value(s)) == s,
    decreases s.len(),
{
    let v = decimal_value(s);
    let d = s.last();
    if s.len() == 1 {
        assert(s.drop_last() =~= Seq::<u8>::empty());
        assert(decimal_value(s.drop_last()) == 0);
        assert(v == d - 48);
        assert(digits(v) =~= s);
    } else {
        let p = s.drop_last();
        assert(p[0] == s[0]);
        assert forall|i: int| 0 <= i < p.len() implies is_digit(#[trigger] p[i]) by {
            assert(p[i] == s[i]);
        }
        lemma_canonical_digits(p);
        let vp = decimal_value(p);
        if vp == 0 {
            lemma_value_zero(p);
            assert(p[0] == 48);
        }
        assert(v == vp * 10 + (d - 48));
        assert(v >= 10 && v / 10 == vp && v % 10 == d - 48) by (nonlinear_arith)
            requires
                v == vp * 10 + (d - 48),
                vp >= 1,
                0 <= d - 48 <= 9,
        ;
        assert(digits(v) =~= p.push(d));
        assert(p.push(d) =~= s);
    }
}

/// `digits` writes canonical runs.
pub proof fn lemma_digits_canonical(n: nat)
    ensures
        canonical(digits(n)),
    decreases n,
{
    lemma_digits_are_digits(n);
    if n >= 10 {
        lemma_digits_canonical(n / 10);
        assert(digits(n)[0] == digits(n / 10)[0]);
        if n / 10 < 10 {
            assert(digits(n / 10)[0] == 48 + n / 10);
        } else {
            lemma_digits_are_digits(n / 10 / 10);
            assert(digits(n / 10).len() > 1);
        }
        assert(digits(n)[0] != 48);
    }
}

/// A prefix of a run of digits spells no more than the run.
proof fn lemma_prefix_value(s: Seq<u8>, k: int)
    requires
        0 <= k <= s.len(),
        forall|i: int| 0 <= i < s.len() ==> is_digit(#[trigger] s[i]),
    ensures
        decimal_value(s.subrange(0, k)) <= decimal_value(s),
    decreases s.len(),
{
    if k < s.len() {
        let p = s.drop_last();
        assert forall|i: int| 0 <= i < p.len() implies is_digit(#[trigger] p[i]) by {
            assert(p[i] == s[i]);
        }
        lemma_prefix_value(p, k);
        assert(p.subrange(0, k) =~= s.subrange(0, k));
        assert(decimal_value(s) == decimal_value(p) * 10 + (s.last() - 48));
    } else {
        assert(s.subrange(0, k) =~= s);
    }
}

/// `b` holds the digits of `n` from `pos` on, followed by its end or by a
/// byte that is no digit.
pub open spec fn number_at(b: Seq<u8>, pos: int, n: u64) -> bool {
    let e = pos + digits(n as nat).len();
    &&& 0 <= pos
    &&& e <= b.len()
    &&& b.subrange(pos, e) == digits(n as nat)
    &&& (e == b.len() || !is_digit(b[e]))
}

/// Reads the decimal number that starts at `pos`: the longest run of digits
/// there, which must be canonical and spell at most `u64::MAX`. Gives the
/// number and the position after it.
fn read_number(b: &[u8], pos: usize) -> (r: Option<(u64, usize)>)
    requires
        pos <= b@.len(),
    ensures
        r matches Some((n, end)) ==> end == pos + digits(n as nat).len() && number_at(
            b@,
            pos as int,
            n,
        ),
        forall|n: u64| #[trigger] number_at(b@, pos as int, n) ==> r == Some(
            (n, (pos + digits(n as nat).len()) as usize),
        ),
{
    let len = b.len();
    let mut j: usize = pos;
    while j < len && 48 <= b[j] && b[j] <= 57
        invariant
            len == b@.len(),
            pos <= j <= len,
            forall|i: int| pos <= i < j ==> is_digit(#[trigger] b@[i]),
        decreases len - j,
    {
        j = j + 1;
    }
    let ghost run = b@.subrange(pos as int, j as int);
    proof {
        assert forall|n: u64| #[trigger] number_at(b@, pos as int, n) implies b@.subrange(
            pos as int,
            j as int,
        ) == digits(n as nat) by {
            let e = pos + digits(n as nat).len();
            lemma_digits_are_digits(n as nat);
            if j < e {
                assert(b@[j as int] == digits(n as nat)[j - pos]);
            } else if j > e {
                assert(is_digit(b@[e]));
            }
        }
    }
    if j == pos {
        proof {
            assert forall|n: u64| !#[trigger] number_at(b@, pos as int, n) by {
                if number_at(b@, pos as int, n) {
                    lemma_digits_are_digits(n as nat);
                    assert(run.len() == 0);
                }
            }
        }
        return None;
    }
    if j - pos > 1 && b[pos] == 48 {
        proof {
            assert forall|n: u64| !#[trigger] number_at(b@, pos as int, n) by {
                if number_at(b@, pos as int, n) {
                    lemma_digits_canonical(n as nat);
                    assert(run[0] == 48);
                }
            }
        }
        return None;
    }
    let mut acc: u64 = 0;
    let mut k: usize = pos;
    while k < j
        invariant
            pos <= k <= j <= b@.len(),
            run == b@.subrange(pos as int, j as int),
            forall|i: int| pos <= i < j ==> is_digit(#[trigger] b@[i]),
            forall|n: u64| #[trigger] number_at(b@, pos as int, n) ==> run == digits(n as nat),
            acc == decimal_value(b@.subrange(pos as int, k as int)),
        decreases j - k,
    {
        let d = (b[k] - 48) as u64;
        let ghost next = b@.subrange(pos as int, k + 1);
        proof {
            assert(next.drop_last() =~= b@.subrange(pos as int, k as int));
            assert(decimal_value(next) == acc * 10 + d);
        }
        let m = acc.checked_mul(10);
        let sum = match m {
            Some(m) => m.checked_add(d),
            None => None,
        };
        match sum {
            Some(v) => {
                acc = v;
            },
            None => {
                proof {
                    assert forall|n: u64| !#[trigger] number_at(b@, pos as int, n) by {
                        if number_at(b@, pos as int, n) {
                            assert(run == digits(n as nat));
                            assert(acc * 10 + d > u64::MAX);
                            assert forall|i: int| 0 <= i < run.len() implies is_digit(
                                #[trigger] run[i],
                            ) by {
                                assert(run[i] == b@[pos + i]);
                            }
                            lemma_prefix_value(run, k + 1 - pos);
                            assert(run.subrange(0, k + 1 - pos) =~= next);
                            lemma_digits_value(n as nat);
                        }
                    }
                }
                return None;
            },
        }
        k = k + 1;
    }
    proof {
        assert forall|i: int| 0 <= i < run.len() implies is_digit(#[trigger] run[i]) by {
            assert(run[i] == b@[pos + i]);
        }
        if run.len() > 1 {
            assert(run[0] == b@[pos as int]);
        }
        lemma_canonical_digits(run);
        assert forall|n: u64| #[trigger] number_at(b@, pos as int, n) implies acc == n by {
            lemma_digits_value(n as nat);
        }
    }
    Some((acc, j))
}

/// `b` holds the line of `s` from `pos` on.
pub open spec fn row_at(b: Seq<u8>, pos: int, s: Sample) -> bool {
    &&& 0 <= pos
    &&& pos + csv_row(s).len() <= b.len()
    &&& b.subrange(pos, pos + csv_row(s).len()) == csv_row(s)
}

/// Reads the line of one sample that starts at `pos`. Gives the sample and
/// the position after the line.
#[verifier::spinoff_prover]
fn read_row(b: &[u8], pos: usize) -> (r: Option<(Sample, usize)>)
    requires
        pos <= b@.len(),
    ensures
        r matches Some((s, end)) ==> end == pos + csv_row(s).len() && row_at(b@, pos as int, s),
        forall|s: Sample| #[trigger] row_at(b@, pos as int, s) ==> r == Some(
            (s, (pos + csv_row(s).len()) as usize),
        ),
{
    let ghost bs = b@;
    proof {
        assert forall|s: Sample| #[trigger] row_at(bs, pos as int, s) implies number_at(
            bs,
            pos as int,
            s.wire_rtt,
        ) && bs[pos + digits(s.wire_rtt as nat).len()] == 44 && number_at(
            bs,
            pos + digits(s.wire_rtt as nat).len() + 1,
            s.loop_rtt,
        ) && bs[pos + digits(s.wire_rtt as nat).len() + 1 + digits(s.loop_rtt as nat).len()] == 44
            && number_at(
            bs,
            pos + digits(s.wire_rtt as nat).len() + 1 + digits(s.loop_rtt as nat).len() + 1,
            diff_of(s),
        ) && bs[pos + digits(s.wire_rtt as nat).len() + 1 + digits(s.loop_rtt as nat).len() + 1
            + digits(diff_of(s) as nat).len()] == 10 by {
            let dw = digits(s.wire_rtt as nat);
            let dl = digits(s.loop_rtt as nat);
            let dd = digits(diff_of(s) as nat);
            let row = csv_row(s);
            let p = pos as int;
            let a = dw.len() as int;
            let c = dl.len() as int;
            let e = dd.len() as int;
            assert(row =~= dw + seq![44u8] + dl + seq![44u8] + dd + seq![10u8]);
            assert(bs.subrange(p, p + a) =~= row.subrange(0, a));
            assert(row.subrange(0, a) =~= dw);
            assert(bs[p + a] == row[a]);
            assert(bs.subrange(p + a + 1, p + a + 1 + c) =~= row.subrange(a + 1, a + 1 + c));
            assert(row.subrange(a + 1, a + 1 + c) =~= dl);
            assert(bs[p + a + 1 + c] == row[a + 1 + c]);
            assert(bs.subrange(p + a + c + 2, p + a + c + 2 + e) =~= row.subrange(
                a + c + 2,
                a + c + 2 + e,
            ));
            assert(row.subrange(a + c + 2, a + c + 2 + e) =~= dd);
            assert(bs[p + a + c + 2 + e] == row[a + c + 2 + e]);
        }
    }
    let len = b.len();
    let (w, after_wire) = match read_number(b, pos) {
        Some(x) => x,
        None => return None,
    };
    if after_wire >= len || b[after_wire] != 44 {
        return None;
    }
    let (l, after_loop) = match read_number(b, after_wire + 1) {
        Some(x) => x,
        None => return None,
    };
    if after_loop >= len || b[after_loop] != 44 {
        return None;
    }
    let (d, after_diff) = match read_number(b, after_loop + 1) {
        Some(x) => x,
        None => return None,
    };
    if after_diff >= len || b[after_diff] != 10 {
        return None;
    }
    let s = Sample { wire_rtt: w, loop_rtt: l };
    if d != s.cycles_diff() {
        return None;
    }
    proof {
        let row = csv_row(s);
        assert(bs.subrange(pos as int, after_diff + 1) =~= row);
        assert forall|t: Sample| #[trigger] row_at(bs, pos as int, t) implies t == s by {}
    }
    Some((s, after_diff + 1))
}

/// Appending a line at the end extends the lines of the samples by one.
proof fn lemma_rows_push(s: Seq<Sample>, x: Sample)
    ensures
        csv_rows(s.push(x)) == csv_rows(s) + csv_row(x),
    decreases s.len(),
{
    if s.len() == 0 {
        let one = s.push(x);
        assert(one.drop_first() =~= Seq::<Sample>::empty());
        assert(csv_rows(one.drop_first()) == Seq::<u8>::empty());
        assert(one[0] == x);
        assert(csv_rows(one) =~= csv_row(x));
    } else {
        lemma_rows_push(s.drop_first(), x);
        assert(s.push(x).drop_first() =~= s.drop_first().push(x));
        assert(csv_rows(s.push(x)) =~= csv_rows(s) + csv_row(x));
    }
}

/// Appends the decimal digits of `n`.
fn push_decimal(out: &mut Vec<u8>, n: u64)
    ensures
        final(out)@ == old(out)@ + digits(n as nat),
    decreases n,
{
    if n >= 10 {
        push_decimal(out, n / 10);
    }
    out.push(48u8 + (n % 10) as u8);
    proof {
        if n >= 10 {
            assert(digits(n as nat) == digits((n / 10) as nat).push((48 + n % 10) as u8));
        }
        assert(final(out)@ =~= old(out)@ + digits(n as nat));
    }
}

/// Appends the line of one sample.
fn push_row(out: &mut Vec<u8>, s: Sample)
    ensures
        final(out)@ == old(out)@ + csv_row(s),
{
    push_decimal(out, s.wire_rtt);
    out.push(44u8);
    push_decimal(out, s.loop_rtt);
    out.push(44u8);
    push_decimal(out, s.cycles_diff());
    out.push(10u8);
    proof {
        assert(final(out)@ =~= old(out)@ + csv_row(s));
    }
}

/// The lines of `v` are its first line followed by the lines of the rest.
proof fn lemma_rows_skip(v: Seq<Sample>, k: int)
    requires
        0 <= k < v.len(),
    ensures
        csv_rows(v.skip(k)) == csv_row(v[k]) + csv_rows(v.skip(k + 1)),
{
    assert(v.skip(k).drop_first() =~= v.skip(k + 1));
    assert(v.skip(k)[0] == v[k]);
}

/// Reads a CSV dump back: the header, then lines `wire,loop,diff` whose
/// difference is wire minus loop saturating at zero. Gives the samples of
/// which `b` is the dump, and nothing where `b` is the dump of no samples.
pub fn parse_csv(b: &[u8]) -> (r: Option<Vec<Sample>>)
    ensures
        r matches Some(v) ==> csv_text(v@) == b@,
        (exists|v: Seq<Sample>| csv_text(v) == b@) ==> r is Some,
{
    let ghost bs = b@;
    let ghost wit: Option<Seq<Sample>> = if exists|v: Seq<Sample>| csv_text(v) == bs {
        Some(choose|v: Seq<Sample>| csv_text(v) == bs)
    } else {
        None
    };
    let header = "wire_rtt, loop_rtt, cycles_diff\n".as_bytes();
    let h = header.len();
    let len = b.len();
    if len < h {
        return None;
    }
    let mut i: usize = 0;
    while i < h
        invariant
            h == header@.len(),
            header@ == csv_header(),
            h <= len == bs.len(),
            bs == b@,
            0 <= i <= h,
            forall|t: int| 0 <= t < i ==> b@[t] == header@[t],
            wit matches Some(v) ==> csv_text(v) == bs,
        decreases h - i,
    {
        if b[i] != header[i] {
            proof {
                if let Some(v) = wit {
                    assert(csv_text(v)[i as int] == csv_header()[i as int]);
                }
            }
            return None;
        }
        i = i + 1;
    }
    proof {
        assert(bs.subrange(0, h as int) =~= csv_header());
        if let Some(v) = wit {
            assert(csv_rows(v) =~= bs.subrange(h as int, len as int));
            assert(v.skip(0) =~= v);
        }
        assert(bs.subrange(h as int, h as int) =~= csv_rows(Seq::<Sample>::empty()));
    }
    let mut out: Vec<Sample> = Vec::new();
    let mut pos: usize = h;
    while pos < len
        invariant
            h == csv_header().len(),
            h <= pos <= len == bs.len(),
            bs == b@,
            bs.subrange(0, h as int) == csv_header(),
            csv_rows(out@) == bs.subrange(h as int, pos as int),
            wit matches Some(v) ==> out@.len() <= v.len() && out@ == v.take(out@.len() as int)
                && bs.subrange(pos as int, len as int) == csv_rows(v.skip(out@.len() as int)),
            wit is None ==> !exists|v: Seq<Sample>| csv_text(v) == bs,
        decreases len - pos,
    {
        let ghost k = out@.len() as int;
        proof {
            if let Some(v) = wit {
                if k == v.len() {
                    assert(v.skip(k) =~= Seq::<Sample>::empty());
                    assert(bs.subrange(pos as int, len as int).len() > 0);
                }
                lemma_rows_skip(v, k);
                let row = csv_row(v[k]);
                let tail = bs.subrange(pos as int, len as int);
                assert(tail == row + csv_rows(v.skip(k + 1)));
                assert(tail.len() >= row.len());
                assert(tail.subrange(0, row.len() as int) =~= row);
                assert(bs.subrange(pos as int, pos + row.len()) =~= bs.subrange(
                    pos as int,
                    len as int,
                ).subrange(0, row.len() as int));
                assert(row_at(bs, pos as int, v[k]));
            }
        }
        let (s, next) = match read_row(b, pos) {
            Some(x) => x,
            None => return None,
        };
        proof {
            lemma_rows_push(out@, s);
            assert(bs.subrange(h as int, next as int) =~= bs.subrange(h as int, pos as int)
                + bs.subrange(pos as int, next as int));
            if let Some(v) = wit {
                assert(s == v[k]);
                assert(out@.push(s) =~= v.take(k + 1));
                assert(bs.subrange(next as int, len as int) =~= bs.subrange(
                    pos as int,
                    len as int,
                ).subrange(csv_row(s).len() as int, len - pos));
                assert(csv_rows(v.skip(k)) =~= csv_row(v[k]) + csv_rows(v.skip(k + 1)));
                assert(csv_rows(v.skip(k + 1)) =~= csv_rows(v.skip(k)).subrange(
                    csv_row(s).len() as int,
                    csv_rows(v.skip(k)).len() as int,
                ));
            }
        }
        out.push(s);
        pos = next;
    }
    proof {
        assert(bs =~= csv_header() + csv_rows(out@));
    }
    Some(out)
}

/// Parsing the CSV dump of samples gives back exactly those samples, in
/// order: any result that meets what `parse_csv` ensures, for the dump of
/// `s`, is `Some(s)`.
pub proof fn lemma_csv_parse_round_trip(s: Seq<Sample>, r: Option<Seq<Sample>>)
    requires
        r matches Some(v) ==> csv_text(v) == csv_text(s),
        (exists|v: Seq<Sample>| csv_text(v) == csv_text(s)) ==> r is Some,
    ensures
        r == Some(s),
{
    assert(csv_text(s) == csv_text(s));
    let v = r->Some_0;
    lemma_csv_round_trip(v, s);
}

impl SampleCollector {
    /// The CSV dump of the samples: the header `wire_rtt, loop_rtt, cycles_diff`,
    /// then one line `wire,loop,diff` per sample in insertion order.
    pub fn csv_bytes(&self) -> (r: Vec<u8>)
        ensures
            r@ == csv_text(self.samples()),
    {
        let header = "wire_rtt, loop_rtt, cycles_diff\n".as_bytes();
        let mut out: Vec<u8> = Vec::new();
        let mut i: usize = 0;
        while i < header.len()
            invariant
                0 <= i <= header@.len(),
                header@ == csv_header(),
                out@ == header@.subrange(0, i as int),
            decreases header@.len() - i,
        {
            out.push(header[i]);
            i = i + 1;
            proof {
                assert(out@ =~= header@.subrange(0, i as int));
            }
        }
        proof {
            assert(out@ =~= csv_header());
        }
        let n = self.len();
        let mut k: usize = 0;
        while k < n
            invariant
                n == self.samples().len(),
                0 <= k <= n,
                out@ == csv_header() + csv_rows(self.samples().subrange(0, k as int)),
            decreases n - k,
        {
            let s = self.get(k);
            push_row(&mut out, s);
            proof {
                lemma_rows_push(self.samples().subrange(0, k as int), s);
                assert(self.samples().subrange(0, k + 1) =~= self.samples().subrange(
                    0,
                    k as int,
                ).push(s));
                assert(out@ =~= csv_header() + csv_rows(self.samples().subrange(0, k + 1)));
            }
            k = k + 1;
        }
        proof {
            assert(self.samples().subrange(0, n as int) =~= self.samples());
        }
        out
    }
}

} // verus!
