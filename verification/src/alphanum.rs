//! Locale-naive alphanumeric ordering: runs of decimal digits compare by
//! their numeric value (then by leading zeros), all other characters by
//! scalar value. This ordering makes every generated table deterministic.

use vstd::prelude::*;
use crate::strutil::is_digit;
use crate::strutil::all_digits;
use crate::strutil::dec_value;
use crate::strutil::digit_val;
use crate::strutil::seq_views;
use crate::strutil::chars_of;
use crate::strutil::str_eq;

verus! {

/// Outcome of a comparison.
#[derive(Clone, Copy, Debug, PartialEq, Eq, Structural)]
pub enum Cmp {
    Lt,
    Eq,
    Gt,
}

/// The opposite comparison outcome.
pub open spec fn flip(c: Cmp) -> Cmp {
    match c {
        Cmp::Lt => Cmp::Gt,
        Cmp::Eq => Cmp::Eq,
        Cmp::Gt => Cmp::Lt,
    }
}

/// Length of the leading run of decimal digit characters.
pub open spec fn run_len(s: Seq<char>) -> nat
    decreases s.len(),
{
    if s.len() == 0 || !is_digit(s[0]) {
        0
    } else {
        1 + run_len(s.skip(1))
    }
}

pub proof fn lemma_run_len(s: Seq<char>)
    ensures
        run_len(s) <= s.len(),
        s.len() > 0 && is_digit(s[0]) ==> run_len(s) >= 1,
    decreases s.len(),
{
    if s.len() == 0 || !is_digit(s[0]) {
    } else {
        lemma_run_len(s.skip(1));
    }
}

/// The sequence without its leading zero characters.
pub open spec fn strip_zeros(s: Seq<char>) -> Seq<char>
    decreases s.len(),
{
    if s.len() > 0 && s[0] == '0' {
        strip_zeros(s.skip(1))
    } else {
        s
    }
}

/// Plain lexicographic comparison by character scalar values.
pub open spec fn lex_cmp(a: Seq<char>, b: Seq<char>) -> Cmp
    decreases a.len(),
{
    if a.len() == 0 && b.len() == 0 {
        Cmp::Eq
    } else if a.len() == 0 {
        Cmp::Lt
    } else if b.len() == 0 {
        Cmp::Gt
    } else if a[0] < b[0] {
        Cmp::Lt
    } else if b[0] < a[0] {
        Cmp::Gt
    } else {
        lex_cmp(a.skip(1), b.skip(1))
    }
}

/// Comparison of two runs of decimal digits by numeric value: once the
/// leading zeros are gone a longer run is the bigger number, equal-length
/// runs compare digit by digit, and on equal values the run with more
/// leading zeros comes second.
pub open spec fn cmp_digit_runs(a: Seq<char>, b: Seq<char>) -> Cmp {
    let sa = strip_zeros(a);
    let sb = strip_zeros(b);
    if sa.len() < sb.len() {
        Cmp::Lt
    } else if sb.len() < sa.len() {
        Cmp::Gt
    } else {
        let c = lex_cmp(sa, sb);
        if c != Cmp::Eq {
            c
        } else if a.len() < b.len() {
            Cmp::Lt
        } else if b.len() < a.len() {
            Cmp::Gt
        } else {
            Cmp::Eq
        }
    }
}

/// Alphanumeric comparison: where both sides start with digits the digit
/// runs compare as numbers, otherwise characters compare by scalar value.
pub open spec fn alphanum_cmp(a: Seq<char>, b: Seq<char>) -> Cmp
    decreases a.len(), b.len(),
    via alphanum_cmp_decreases
{
    if a.len() == 0 && b.len() == 0 {
        Cmp::Eq
    } else if a.len() == 0 {
        Cmp::Lt
    } else if b.len() == 0 {
        Cmp::Gt
    } else if is_digit(a[0]) && is_digit(b[0]) {
        let ra = run_len(a) as int;
        let rb = run_len(b) as int;
        let c = cmp_digit_runs(a.take(ra), b.take(rb));
        if c != Cmp::Eq {
            c
        } else {
            alphanum_cmp(a.skip(ra), b.skip(rb))
        }
    } else if a[0] == b[0] {
        alphanum_cmp(a.skip(1), b.skip(1))
    } else if a[0] < b[0] {
        Cmp::Lt
    } else {
        Cmp::Gt
    }
}

#[via_fn]
proof fn alphanum_cmp_decreases(a: Seq<char>, b: Seq<char>) {
    if a.len() > 0 && b.len() > 0 && is_digit(a[0]) && is_digit(b[0]) {
        lemma_run_len(a);
        lemma_run_len(b);
    }
}

/// `a` sorts at or before `b`.
pub open spec fn alphanum_le(a: Seq<char>, b: Seq<char>) -> bool {
    alphanum_cmp(a, b) != Cmp::Gt
}

proof fn lemma_lex_cmp_flip(a: Seq<char>, b: Seq<char>)
    ensures
        lex_cmp(b, a) == flip(lex_cmp(a, b)),
    decreases a.len(),
{
    if a.len() == 0 || b.len() == 0 {
    } else if a[0] == b[0] {
        lemma_lex_cmp_flip(a.skip(1), b.skip(1));
    }
}

proof fn lemma_cmp_digit_runs_flip(a: Seq<char>, b: Seq<char>)
    ensures
        cmp_digit_runs(b, a) == flip(cmp_digit_runs(a, b)),
{
    lemma_lex_cmp_flip(strip_zeros(a), strip_zeros(b));
}

/// Swapping the arguments reverses the comparison.
pub proof fn lemma_alphanum_cmp_flip(a: Seq<char>, b: Seq<char>)
    ensures
        alphanum_cmp(b, a) == flip(alphanum_cmp(a, b)),
    decreases a.len(), b.len(),
{
    if a.len() == 0 || b.len() == 0 {
    } else if is_digit(a[0]) && is_digit(b[0]) {
        let ra = run_len(a) as int;
        let rb = run_len(b) as int;
        lemma_run_len(a);
        lemma_run_len(b);
        lemma_cmp_digit_runs_flip(a.take(ra), b.take(rb));
        if cmp_digit_runs(a.take(ra), b.take(rb)) == Cmp::Eq {
            lemma_alphanum_cmp_flip(a.skip(ra), b.skip(rb));
        }
    } else if a[0] == b[0] {
        lemma_alphanum_cmp_flip(a.skip(1), b.skip(1));
    }
}

/// Length of the leading digit run starting at index `i`.
fn run_len_from(v: &Vec<char>, i: usize) -> (r: usize)
    requires
        i <= v@.len(),
    ensures
        r == run_len(v@.skip(i as int)),
        i + r <= v@.len(),
{
    let mut j = i;
    while j < v.len() && '0' <= v[j] && v[j] <= '9'
        invariant
            i <= j <= v@.len(),
            run_len(v@.skip(i as int)) == j - i + run_len(v@.skip(j as int)),
        decreases v@.len() - j,
    {
        proof {
            assert(v@.skip(j as int).skip(1) =~= v@.skip(j + 1));
        }
        j = j + 1;
    }
    j - i
}

/// Comparison of the digit runs `a[ia..ia+ra]` and `b[ib..ib+rb]`.
fn cmp_runs_exec(a: &Vec<char>, ia: usize, ra: usize, b: &Vec<char>, ib: usize, rb: usize) -> (r:
    Cmp)
    requires
        ia + ra <= a@.len(),
        ib + rb <= b@.len(),
    ensures
        r == cmp_digit_runs(
            a@.subrange(ia as int, ia + ra),
            b@.subrange(ib as int, ib + rb),
        ),
{
    let ghost runa = a@.subrange(ia as int, ia + ra);
    let ghost runb = b@.subrange(ib as int, ib + rb);
    let na = a.len();
    let nb = b.len();
    let mut za: usize = 0;
    proof {
        assert(runa.skip(0) =~= runa);
        assert(runb.skip(0) =~= runb);
    }
    while za < ra && a[ia + za] == '0'
        invariant
            za <= ra,
            na == a@.len(),
            ia + ra <= a@.len(),
            runa == a@.subrange(ia as int, ia + ra),
            strip_zeros(runa) == strip_zeros(runa.skip(za as int)),
        decreases ra - za,
    {
        proof {
            assert(runa.skip(za as int).skip(1) =~= runa.skip(za + 1));
        }
        za = za + 1;
    }
    assert(strip_zeros(runa) =~= runa.skip(za as int));
    let mut zb: usize = 0;
    while zb < rb && b[ib + zb] == '0'
        invariant
            zb <= rb,
            nb == b@.len(),
            ib + rb <= b@.len(),
            runb == b@.subrange(ib as int, ib + rb),
            strip_zeros(runb) == strip_zeros(runb.skip(zb as int)),
        decreases rb - zb,
    {
        proof {
            assert(runb.skip(zb as int).skip(1) =~= runb.skip(zb + 1));
        }
        zb = zb + 1;
    }
    assert(strip_zeros(runb) =~= runb.skip(zb as int));
    let la = ra - za;
    let lb = rb - zb;
    if la < lb {
        return Cmp::Lt;
    }
    if lb < la {
        return Cmp::Gt;
    }
    let ghost sa = strip_zeros(runa);
    let ghost sb = strip_zeros(runb);
    let mut t: usize = 0;
    proof {
        assert(sa.skip(0) =~= sa);
        assert(sb.skip(0) =~= sb);
    }
    while t < la
        invariant
            t <= la,
            la == lb,
            na == a@.len(),
            nb == b@.len(),
            ia + ra <= a@.len(),
            ib + rb <= b@.len(),
            la == ra - za,
            lb == rb - zb,
            za <= ra,
            zb <= rb,
            runa == a@.subrange(ia as int, ia + ra),
            runb == b@.subrange(ib as int, ib + rb),
            sa == runa.skip(za as int),
            sb == runb.skip(zb as int),
            sa == strip_zeros(runa),
            sb == strip_zeros(runb),
            sa.len() == la,
            sb.len() == lb,
            lex_cmp(sa, sb) == lex_cmp(sa.skip(t as int), sb.skip(t as int)),
        decreases la - t,
    {
        let ca = a[ia + za + t];
        let cb = b[ib + zb + t];
        if ca < cb {
            assert(lex_cmp(sa, sb) == Cmp::Lt);
            return Cmp::Lt;
        }
        if cb < ca {
            assert(lex_cmp(sa, sb) == Cmp::Gt);
            return Cmp::Gt;
        }
        proof {
            assert(sa.skip(t as int).skip(1) =~= sa.skip(t + 1));
            assert(sb.skip(t as int).skip(1) =~= sb.skip(t + 1));
        }
        t = t + 1;
    }
    assert(sa.skip(t as int) =~= Seq::<char>::empty());
    assert(sb.skip(t as int) =~= Seq::<char>::empty());
    if ra < rb {
        Cmp::Lt
    } else if rb < ra {
        Cmp::Gt
    } else {
        Cmp::Eq
    }
}

fn cmp_from(a: &Vec<char>, b: &Vec<char>, i: usize, j: usize) -> (r: Cmp)
    requires
        i <= a@.len(),
        j <= b@.len(),
    ensures
        r == alphanum_cmp(a@.skip(i as int), b@.skip(j as int)),
    decreases a@.len() - i + b@.len() - j,
{
    let ghost sa = a@.skip(i as int);
    let ghost sb = b@.skip(j as int);
    if i == a.len() && j == b.len() {
        Cmp::Eq
    } else if i == a.len() {
        Cmp::Lt
    } else if j == b.len() {
        Cmp::Gt
    } else {
        let ca = a[i];
        let cb = b[j];
        if '0' <= ca && ca <= '9' && '0' <= cb && cb <= '9' {
            let ra = run_len_from(a, i);
            let rb = run_len_from(b, j);
            proof {
                lemma_run_len(sa);
                lemma_run_len(sb);
            }
            assert(sa.take(ra as int) =~= a@.subrange(i as int, i + ra));
            assert(sb.take(rb as int) =~= b@.subrange(j as int, j + rb));
            let c = cmp_runs_exec(a, i, ra, b, j, rb);
            if c != Cmp::Eq {
                c
            } else {
                assert(sa.skip(ra as int) =~= a@.skip(i + ra));
                assert(sb.skip(rb as int) =~= b@.skip(j + rb));
                cmp_from(a, b, i + ra, j + rb)
            }
        } else if ca == cb {
            assert(sa.skip(1) =~= a@.skip(i + 1));
            assert(sb.skip(1) =~= b@.skip(j + 1));
            cmp_from(a, b, i + 1, j + 1)
        } else if ca < cb {
            Cmp::Lt
        } else {
            Cmp::Gt
        }
    }
}

/// Alphanumeric comparison of two strings.
pub fn alphanum_cmp_str(a: &str, b: &str) -> (r: Cmp)
    ensures
        r == alphanum_cmp(a@, b@),
{
    let av = chars_of(a);
    let bv = chars_of(b);
    let r = cmp_from(&av, &bv, 0, 0);
    proof {
        assert(av@.skip(0) =~= a@);
        assert(bv@.skip(0) =~= b@);
    }
    r
}


/// Powers of ten.
pub open spec fn pow10(n: nat) -> nat
    decreases n,
{
    if n == 0 {
        1
    } else {
        10 * pow10((n - 1) as nat)
    }
}

proof fn lemma_pow10_mono(m: nat, n: nat)
    requires
        m <= n,
    ensures
        pow10(m) <= pow10(n),
        pow10(m) >= 1,
    decreases n,
{
    if n == 0 {
    } else if m == n {
        lemma_pow10_mono((m - 1) as nat, (n - 1) as nat);
    } else {
        lemma_pow10_mono(m, (n - 1) as nat);
    }
}

proof fn lemma_dec_value_bound(s: Seq<char>)
    requires
        all_digits(s),
    ensures
        dec_value(s) < pow10(s.len()),
    decreases s.len(),
{
    if s.len() == 0 {
    } else {
        assert(all_digits(s.drop_last())) by {
            assert(forall|i: int|
                0 <= i < s.drop_last().len() ==> #[trigger] s.drop_last()[i] == s[i]);
        }
        lemma_dec_value_bound(s.drop_last());
        assert(is_digit(s.last()));
        assert(digit_val(s.last()) <= 9);
    }
}

proof fn lemma_dec_value_lower(s: Seq<char>)
    requires
        all_digits(s),
        s.len() > 0,
        s[0] != '0',
    ensures
        dec_value(s) >= pow10((s.len() - 1) as nat),
    decreases s.len(),
{
    if s.len() == 1 {
        assert(digit_val(s[0]) >= 1);
    } else {
        assert(all_digits(s.drop_last())) by {
            assert(forall|i: int|
                0 <= i < s.drop_last().len() ==> #[trigger] s.drop_last()[i] == s[i]);
        }
        lemma_dec_value_lower(s.drop_last());
    }
}

proof fn lemma_dec_value_zero_front(s: Seq<char>)
    requires
        s.len() > 0,
        s[0] == '0',
    ensures
        dec_value(s) == dec_value(s.skip(1)),
    decreases s.len(),
{
    assert(dec_value(s) == 10 * dec_value(s.drop_last()) + digit_val(s.last()));
    if s.len() == 1 {
        assert(s.drop_last().len() == 0);
        assert(dec_value(s.drop_last()) == 0);
        assert(digit_val(s.last()) == 0);
        assert(s.skip(1).len() == 0);
        assert(dec_value(s.skip(1)) == 0);
    } else {
        assert(s.drop_last()[0] == '0');
        lemma_dec_value_zero_front(s.drop_last());
        assert(s.drop_last().skip(1) =~= s.skip(1).drop_last());
        assert(s.skip(1).last() == s.last());
        assert(dec_value(s.skip(1)) == 10 * dec_value(s.skip(1).drop_last()) + digit_val(
            s.skip(1).last(),
        ));
    }
}

proof fn lemma_strip_zeros_facts(s: Seq<char>)
    requires
        all_digits(s),
    ensures
        dec_value(strip_zeros(s)) == dec_value(s),
        all_digits(strip_zeros(s)),
        strip_zeros(s).len() <= s.len(),
        strip_zeros(s).len() > 0 ==> strip_zeros(s)[0] != '0',
    decreases s.len(),
{
    if s.len() > 0 && s[0] == '0' {
        lemma_dec_value_zero_front(s);
        assert(all_digits(s.skip(1))) by {
            assert(forall|i: int|
                0 <= i < s.skip(1).len() ==> #[trigger] s.skip(1)[i] == s[i + 1]);
        }
        lemma_strip_zeros_facts(s.skip(1));
    }
}

proof fn lemma_dec_value_front(s: Seq<char>)
    requires
        s.len() > 0,
    ensures
        dec_value(s) == digit_val(s[0]) * pow10((s.len() - 1) as nat) + dec_value(s.skip(1)),
    decreases s.len(),
{
    assert(dec_value(s) == 10 * dec_value(s.drop_last()) + digit_val(s.last()));
    if s.len() == 1 {
        assert(s.drop_last().len() == 0);
        assert(dec_value(s.drop_last()) == 0);
        assert(s.skip(1).len() == 0);
        assert(dec_value(s.skip(1)) == 0);
        assert(pow10(0) == 1);
        assert(s.last() == s[0]);
    } else {
        lemma_dec_value_front(s.drop_last());
        assert(s.drop_last()[0] == s[0]);
        assert(s.drop_last().skip(1) =~= s.skip(1).drop_last());
        assert(s.skip(1).last() == s.last());
        let d0 = digit_val(s[0]);
        let p = pow10((s.len() - 2) as nat);
        let rest = dec_value(s.skip(1).drop_last());
        assert(dec_value(s.drop_last()) == d0 * p + rest);
        assert(dec_value(s) == 10 * (d0 * p + rest) + digit_val(s.last()));
        assert(10 * (d0 * p + rest) == d0 * (10 * p) + 10 * rest) by (nonlinear_arith);
        assert(pow10((s.len() - 1) as nat) == 10 * p);
        assert(dec_value(s.skip(1)) == 10 * dec_value(s.skip(1).drop_last()) + digit_val(
            s.skip(1).last(),
        ));
    }
}

proof fn lemma_lex_value(a: Seq<char>, b: Seq<char>)
    requires
        all_digits(a),
        all_digits(b),
        a.len() == b.len(),
    ensures
        (lex_cmp(a, b) == Cmp::Lt) <==> dec_value(a) < dec_value(b),
        (lex_cmp(a, b) == Cmp::Eq) <==> a == b,
    decreases a.len(),
{
    if a.len() == 0 {
        assert(a =~= b);
    } else {
        lemma_dec_value_front(a);
        lemma_dec_value_front(b);
        assert(all_digits(a.skip(1))) by {
            assert(forall|i: int|
                0 <= i < a.skip(1).len() ==> #[trigger] a.skip(1)[i] == a[i + 1]);
        }
        assert(all_digits(b.skip(1))) by {
            assert(forall|i: int|
                0 <= i < b.skip(1).len() ==> #[trigger] b.skip(1)[i] == b[i + 1]);
        }
        lemma_dec_value_bound(a.skip(1));
        lemma_dec_value_bound(b.skip(1));
        let p = pow10((a.len() - 1) as nat);
        lemma_pow10_mono(0, (a.len() - 1) as nat);
        if a[0] == b[0] {
            lemma_lex_value(a.skip(1), b.skip(1));
            if lex_cmp(a, b) == Cmp::Eq {
                assert(a =~= seq![a[0]] + a.skip(1));
                assert(b =~= seq![b[0]] + b.skip(1));
            }
        } else if a[0] < b[0] {
            let da = digit_val(a[0]);
            let db = digit_val(b[0]);
            assert(da < db);
            assert(da * p + p <= db * p) by (nonlinear_arith)
                requires
                    da + 1 <= db,
                    p >= 1,
            ;
            assert(dec_value(a) < da * p + p);
        } else {
            let da = digit_val(a[0]);
            let db = digit_val(b[0]);
            assert(db < da);
            assert(db * p + p <= da * p) by (nonlinear_arith)
                requires
                    db + 1 <= da,
                    p >= 1,
            ;
            assert(dec_value(b) < db * p + p);
        }
    }
}

/// Digit runs really compare as numbers: the run comparison says `Lt`
/// exactly when the left run's value is smaller, or the values are equal
/// and the left run is shorter (fewer leading zeros).
pub proof fn lemma_digit_runs_numeric(a: Seq<char>, b: Seq<char>)
    requires
        all_digits(a),
        all_digits(b),
    ensures
        (cmp_digit_runs(a, b) == Cmp::Lt) <==> (dec_value(a) < dec_value(b) || (dec_value(a)
            == dec_value(b) && a.len() < b.len())),
{
    lemma_strip_zeros_facts(a);
    lemma_strip_zeros_facts(b);
    let sa = strip_zeros(a);
    let sb = strip_zeros(b);
    if sa.len() < sb.len() {
        assert(sb.len() > 0);
        lemma_dec_value_lower(sb);
        lemma_dec_value_bound(sa);
        lemma_pow10_mono(sa.len(), (sb.len() - 1) as nat);
        assert(dec_value(a) < dec_value(b));
    } else if sb.len() < sa.len() {
        assert(sa.len() > 0);
        lemma_dec_value_lower(sa);
        lemma_dec_value_bound(sb);
        lemma_pow10_mono(sb.len(), (sa.len() - 1) as nat);
        assert(dec_value(b) < dec_value(a));
    } else {
        lemma_lex_value(sa, sb);
        if lex_cmp(sa, sb) == Cmp::Gt {
            lemma_lex_cmp_flip(sa, sb);
            lemma_lex_value(sb, sa);
            assert(dec_value(b) < dec_value(a));
        }
    }
}

/// Insertion of one element into an alphanumerically sorted sequence.
pub open spec fn insert_sorted(x: Seq<char>, s: Seq<Seq<char>>) -> Seq<Seq<char>>
    decreases s.len(),
{
    if s.len() == 0 {
        seq![x]
    } else if alphanum_le(x, s[0]) {
        seq![x] + s
    } else {
        seq![s[0]] + insert_sorted(x, s.skip(1))
    }
}

/// Alphanumeric insertion sort of a sequence of character sequences.
pub open spec fn sort_alphanum(s: Seq<Seq<char>>) -> Seq<Seq<char>>
    decreases s.len(),
{
    if s.len() == 0 {
        Seq::empty()
    } else {
        insert_sorted(s[0], sort_alphanum(s.skip(1)))
    }
}

/// Adjacent elements are in alphanumeric order.
pub open spec fn sorted_alphanum(s: Seq<Seq<char>>) -> bool {
    forall|i: int| 0 <= i && i + 1 < s.len() ==> alphanum_le(#[trigger] s[i], s[i + 1])
}

pub proof fn lemma_insert_sorted_keeps(x: Seq<char>, s: Seq<Seq<char>>)
    requires
        sorted_alphanum(s),
    ensures
        sorted_alphanum(insert_sorted(x, s)),
        insert_sorted(x, s).len() == s.len() + 1,
        insert_sorted(x, s)[0] == x || (s.len() > 0 && insert_sorted(x, s)[0] == s[0]),
    decreases s.len(),
{
    if s.len() == 0 {
    } else if alphanum_le(x, s[0]) {
        let r = seq![x] + s;
        assert forall|i: int| 0 <= i && i + 1 < r.len() implies #[trigger] alphanum_le(
            r[i],
            r[i + 1],
        ) by {
            if i > 0 {
                assert(alphanum_le(s[i - 1], s[i]));
            }
        }
    } else {
        lemma_alphanum_cmp_flip(x, s[0]);
        assert forall|i: int| 0 <= i && i + 1 < s.skip(1).len() implies #[trigger] alphanum_le(
            s.skip(1)[i],
            s.skip(1)[i + 1],
        ) by {
            assert(alphanum_le(s[i + 1], s[i + 2]));
        }
        lemma_insert_sorted_keeps(x, s.skip(1));
        let t = insert_sorted(x, s.skip(1));
        let r = seq![s[0]] + t;
        assert forall|i: int| 0 <= i && i + 1 < r.len() implies #[trigger] alphanum_le(
            r[i],
            r[i + 1],
        ) by {
            if i == 0 {
                if t[0] == x {
                    assert(alphanum_le(s[0], x));
                } else {
                    assert(t[0] == s.skip(1)[0]);
                    assert(alphanum_le(s[0], s[1]));
                }
            } else {
                assert(alphanum_le(t[i - 1], t[i]));
            }
        }
    }
}

/// The result of the insertion sort is alphanumerically sorted.
pub proof fn lemma_sort_alphanum_sorted(s: Seq<Seq<char>>)
    ensures
        sorted_alphanum(sort_alphanum(s)),
        sort_alphanum(s).len() == s.len(),
    decreases s.len(),
{
    if s.len() == 0 {
    } else {
        lemma_sort_alphanum_sorted(s.skip(1));
        lemma_insert_sorted_keeps(s[0], sort_alphanum(s.skip(1)));
    }
}

/// The insertion sort permutes its input.
pub proof fn lemma_insert_sorted_multiset(x: Seq<char>, s: Seq<Seq<char>>)
    ensures
        insert_sorted(x, s).to_multiset() == s.to_multiset().insert(x),
    decreases s.len(),
{
    broadcast use vstd::seq_lib::group_to_multiset_ensures;

    if s.len() == 0 {
        assert(seq![x] =~= Seq::<Seq<char>>::empty().push(x));
    } else if alphanum_le(x, s[0]) {
        assert(seq![x] + s =~= s.insert(0, x));
    } else {
        lemma_insert_sorted_multiset(x, s.skip(1));
        let t = insert_sorted(x, s.skip(1));
        assert(seq![s[0]] + t =~= t.insert(0, s[0]));
        assert(s =~= s.skip(1).insert(0, s[0]));
    }
}

pub proof fn lemma_sort_alphanum_multiset(s: Seq<Seq<char>>)
    ensures
        sort_alphanum(s).to_multiset() == s.to_multiset(),
    decreases s.len(),
{
    broadcast use vstd::seq_lib::group_to_multiset_ensures;

    if s.len() == 0 {
    } else {
        lemma_sort_alphanum_multiset(s.skip(1));
        lemma_insert_sorted_multiset(s[0], sort_alphanum(s.skip(1)));
        assert(s =~= s.skip(1).insert(0, s[0]));
    }
}

fn insert_str(v: Vec<String>, x: String) -> (r: Vec<String>)
    ensures
        seq_views(r@) == insert_sorted(x@, seq_views(v@)),
    decreases v@.len(),
{
    let ghost s = seq_views(v@);
    if v.len() == 0 {
        let r = vec![x];
        assert(seq_views(r@) =~= insert_sorted(x@, s));
        r
    } else if matches!(alphanum_cmp_str(x.as_str(), v[0].as_str()), Cmp::Lt | Cmp::Eq) {
        let ghost vv = v@;
        let mut r = v;
        r.insert(0, x);
        assert(r@ == vv.insert(0, x));
        assert(seq_views(r@) =~= seq![x@] + s);
        r
    } else {
        let mut v = v;
        let h = v.remove(0);
        proof {
            assert(seq_views(v@) =~= s.skip(1));
        }
        let t = insert_str(v, x);
        let mut r = t;
        r.insert(0, h);
        assert(seq_views(r@) =~= seq![s[0]] + insert_sorted(x@, s.skip(1)));
        r
    }
}

/// Sort a vector of strings into alphanumeric order.
pub fn sort_strings(v: &Vec<String>) -> (r: Vec<String>)
    ensures
        seq_views(r@) == sort_alphanum(seq_views(v@)),
{
    let r = sort_from(v, 0);
    proof {
        assert(seq_views(v@).skip(0) =~= seq_views(v@));
    }
    r
}

fn sort_from(v: &Vec<String>, i: usize) -> (r: Vec<String>)
    requires
        i <= v@.len(),
    ensures
        seq_views(r@) == sort_alphanum(seq_views(v@).skip(i as int)),
    decreases v@.len() - i,
{
    if i == v.len() {
        let r: Vec<String> = Vec::new();
        assert(seq_views(r@) =~= sort_alphanum(seq_views(v@).skip(i as int)));
        r
    } else {
        let rest = sort_from(v, i + 1);
        let ghost s = seq_views(v@).skip(i as int);
        assert(s.skip(1) =~= seq_views(v@).skip(i + 1));
        insert_str(rest, v[i].clone())
    }
}

/// A non-empty sequence keeps its first element under deduplication.
pub proof fn lemma_dedup_first(s: Seq<Seq<char>>)
    requires
        s.len() > 0,
    ensures
        dedup_adjacent(s).len() > 0,
        dedup_adjacent(s)[0] == s[0],
    decreases s.len(),
{
    if s.len() == 1 {
    } else if s[0] == s[1] {
        lemma_dedup_first(s.skip(1));
    } else {
        lemma_dedup_first(s.skip(1));
    }
}

/// Removing adjacent duplicates keeps the alphanumeric order.
pub proof fn lemma_dedup_keeps_sorted(s: Seq<Seq<char>>)
    requires
        sorted_alphanum(s),
    ensures
        sorted_alphanum(dedup_adjacent(s)),
    decreases s.len(),
{
    if s.len() <= 1 {
    } else {
        assert forall|i: int| 0 <= i && i + 1 < s.skip(1).len() implies alphanum_le(
            #[trigger] s.skip(1)[i],
            s.skip(1)[i + 1],
        ) by {
            assert(alphanum_le(s[i + 1], s[i + 2]));
        }
        lemma_dedup_keeps_sorted(s.skip(1));
        if s[0] == s[1] {
        } else {
            lemma_dedup_first(s.skip(1));
            let t = dedup_adjacent(s.skip(1));
            let r = seq![s[0]] + t;
            assert forall|i: int| 0 <= i && i + 1 < r.len() implies alphanum_le(
                #[trigger] r[i],
                r[i + 1],
            ) by {
                if i == 0 {
                    assert(t[0] == s[1]);
                    assert(alphanum_le(s[0], s[1]));
                } else {
                    assert(alphanum_le(t[i - 1], t[i]));
                }
            }
        }
    }
}

/// Removal of adjacent duplicates from a sequence.
pub open spec fn dedup_adjacent(s: Seq<Seq<char>>) -> Seq<Seq<char>>
    decreases s.len(),
{
    if s.len() == 0 {
        s
    } else if s.len() == 1 {
        s
    } else if s[0] == s[1] {
        dedup_adjacent(s.skip(1))
    } else {
        seq![s[0]] + dedup_adjacent(s.skip(1))
    }
}

/// Remove adjacent duplicate strings.
pub fn dedup_strings(v: &Vec<String>) -> (r: Vec<String>)
    ensures
        seq_views(r@) == dedup_adjacent(seq_views(v@)),
{
    let r = dedup_from(v, 0);
    proof {
        assert(seq_views(v@).skip(0) =~= seq_views(v@));
    }
    r
}

fn dedup_from(v: &Vec<String>, i: usize) -> (r: Vec<String>)
    requires
        i <= v@.len(),
    ensures
        seq_views(r@) == dedup_adjacent(seq_views(v@).skip(i as int)),
    decreases v@.len() - i,
{
    let ghost s = seq_views(v@).skip(i as int);
    if i == v.len() {
        let r: Vec<String> = Vec::new();
        assert(seq_views(r@) =~= dedup_adjacent(s));
        r
    } else if i + 1 == v.len() {
        let r = vec![v[i].clone()];
        assert(seq_views(r@) =~= dedup_adjacent(s));
        r
    } else {
        proof {
            assert(s.skip(1) =~= seq_views(v@).skip(i + 1));
        }
        if str_eq(v[i].as_str(), v[i + 1].as_str()) {
            dedup_from(v, i + 1)
        } else {
            let t = dedup_from(v, i + 1);
            let mut r = t;
            r.insert(0, v[i].clone());
            assert(seq_views(r@) =~= seq![s[0]] + dedup_adjacent(s.skip(1)));
            r
        }
    }
}

/// Insertion of one value into a numerically sorted sequence.
pub open spec fn insert_sorted_u32(x: u32, s: Seq<u32>) -> Seq<u32>
    decreases s.len(),
{
    if s.len() == 0 {
        seq![x]
    } else if x <= s[0] {
        seq![x] + s
    } else {
        seq![s[0]] + insert_sorted_u32(x, s.skip(1))
    }
}

/// Numeric insertion sort.
pub open spec fn sort_u32s(s: Seq<u32>) -> Seq<u32>
    decreases s.len(),
{
    if s.len() == 0 {
        Seq::empty()
    } else {
        insert_sorted_u32(s[0], sort_u32s(s.skip(1)))
    }
}

fn insert_u32(v: Vec<u32>, x: u32) -> (r: Vec<u32>)
    ensures
        r@ == insert_sorted_u32(x, v@),
    decreases v@.len(),
{
    let ghost s = v@;
    if v.len() == 0 {
        let r = vec![x];
        assert(r@ =~= insert_sorted_u32(x, s));
        r
    } else if x <= v[0] {
        let mut r = v;
        r.insert(0, x);
        assert(r@ =~= seq![x] + s);
        r
    } else {
        let mut v = v;
        let h = v.remove(0);
        proof {
            assert(v@ =~= s.skip(1));
        }
        let t = insert_u32(v, x);
        let mut r = t;
        r.insert(0, h);
        assert(r@ =~= seq![s[0]] + insert_sorted_u32(x, s.skip(1)));
        r
    }
}

/// Sort a vector of numbers ascending.
pub fn sort_u32_vec(v: &Vec<u32>) -> (r: Vec<u32>)
    ensures
        r@ == sort_u32s(v@),
{
    let r = sort_u32_from(v, 0);
    proof {
        assert(v@.skip(0) =~= v@);
    }
    r
}

fn sort_u32_from(v: &Vec<u32>, i: usize) -> (r: Vec<u32>)
    requires
        i <= v@.len(),
    ensures
        r@ == sort_u32s(v@.skip(i as int)),
    decreases v@.len() - i,
{
    if i == v.len() {
        let r: Vec<u32> = Vec::new();
        assert(r@ =~= sort_u32s(v@.skip(i as int)));
        r
    } else {
        let rest = sort_u32_from(v, i + 1);
        proof {
            assert(v@.skip(i as int).skip(1) =~= v@.skip(i + 1));
        }
        insert_u32(rest, v[i])
    }
}

} // verus!
