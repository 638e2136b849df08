//! Dotted-quad IPv4 addresses, read the way std's `Ipv4Addr` parser reads
//! them: exactly four decimal fields separated by dots, each field one to
//! three digits without a leading zero (a lone `0` is allowed), at most 255.

use vstd::prelude::*;
use crate::text::{chars_of, decimal, digit_char};

verus! {

/// `c` is one of the ASCII digits.
pub open spec fn is_digit(c: char) -> bool {
    '0' <= c && c <= '9'
}

/// The value of an ASCII digit.
pub open spec fn digit_value(c: char) -> int {
    c as int - 48
}

/// The value of a string of decimal digits.
pub open spec fn digits_value(s: Seq<char>) -> int
    decreases s.len(),
{
    if s.len() == 0 {
        0
    } else {
        digits_value(s.drop_last()) * 10 + digit_value(s.last())
    }
}

/// `s` is one field of a dotted quad.
pub open spec fn is_octet(s: Seq<char>) -> bool {
    &&& 1 <= s.len() <= 3
    &&& forall|i: int| 0 <= i < s.len() ==> is_digit(#[trigger] s[i])
    &&& (s.len() > 1 ==> s[0] != '0')
    &&& digits_value(s) <= 255
}

/// The pieces of `s` between dots, in order (`k` dots give `k + 1` pieces).
pub open spec fn dot_fields(s: Seq<char>) -> Seq<Seq<char>>
    decreases s.len(),
{
    if s.len() == 0 {
        seq![Seq::<char>::empty()]
    } else {
        let f = dot_fields(s.drop_last());
        if s.last() == '.' {
            f.push(Seq::<char>::empty())
        } else {
            f.update(f.len() - 1, f.last().push(s.last()))
        }
    }
}

/// `s` is the text of an IPv4 address.
pub open spec fn is_ipv4(s: Seq<char>) -> bool {
    let f = dot_fields(s);
    &&& f.len() == 4
    &&& forall|i: int| 0 <= i < 4 ==> is_octet(#[trigger] f[i])
}

proof fn lemma_dot_fields_nonempty(s: Seq<char>)
    ensures
        dot_fields(s).len() >= 1,
    decreases s.len(),
{
    if s.len() > 0 {
        lemma_dot_fields_nonempty(s.drop_last());
    }
}

/// Whether `s` is an IPv4 address in dotted-quad notation.
pub fn is_ipv4_address(s: &str) -> (r: bool)
    ensures
        r == is_ipv4(s@),
{
    let v = chars_of(s);
    let n = v.len();
    let mut fields: usize = 0;
    let mut cur_len: usize = 0;
    let mut cur_val: u32 = 0;
    let mut cur_digits = true;
    let mut cur_lead_zero = false;
    let mut done_ok = true;
    let mut i: usize = 0;
    proof {
        assert(v@.take(0) =~= Seq::<char>::empty());
    }
    while i < n
        invariant
            n == v@.len(),
            v@ == s@,
            i <= n,
            fields <= i,
            cur_len <= i,
            dot_fields(v@.take(i as int)).len() == fields + 1,
            dot_fields(v@.take(i as int)).last().len() == cur_len,
            cur_digits <==> (forall|k: int|
                0 <= k < cur_len ==> is_digit(
                    #[trigger] dot_fields(v@.take(i as int)).last()[k],
                )),
            cur_len <= 3 && cur_digits ==> cur_val == digits_value(
                dot_fields(v@.take(i as int)).last(),
            ),
            cur_val <= 999,
            cur_len <= 2 ==> cur_val <= 99,
            cur_len <= 1 ==> cur_val <= 9,
            cur_len == 0 ==> cur_val == 0,
            cur_len >= 1 ==> (cur_lead_zero <==> dot_fields(v@.take(i as int)).last()[0] == '0'),
            done_ok <==> (forall|j: int|
                0 <= j < fields ==> is_octet(#[trigger] dot_fields(v@.take(i as int))[j])),
        decreases n - i,
    {
        let c = v[i];
        let ghost pre = v@.take(i as int);
        let ghost f = dot_fields(pre);
        proof {
            assert(v@.take(i + 1).drop_last() =~= pre);
            assert(v@.take(i + 1).last() == c);
            lemma_dot_fields_nonempty(pre);
        }
        if c == '.' {
            let cur_ok = 1 <= cur_len && cur_len <= 3 && cur_digits && !(cur_len > 1
                && cur_lead_zero) && cur_val <= 255;
            proof {
                assert(cur_ok == is_octet(f.last()));
            }
            let ghost old_ok = done_ok;
            let ghost old_fields = fields as int;
            done_ok = done_ok && cur_ok;
            fields = fields + 1;
            cur_len = 0;
            cur_val = 0;
            cur_digits = true;
            cur_lead_zero = false;
            proof {
                let g = dot_fields(v@.take(i + 1));
                assert(g == f.push(Seq::<char>::empty()));
                assert forall|j: int| 0 <= j < fields implies #[trigger] g[j] == f[j] by {}
                assert(g[old_fields] == f.last());
                if done_ok {
                    assert forall|j: int| 0 <= j < fields implies is_octet(#[trigger] g[j]) by {
                        if j < old_fields {
                            assert(is_octet(f[j]));
                        }
                    }
                } else {
                    if !old_ok {
                        let j = choose|j: int| 0 <= j < old_fields && !is_octet(#[trigger] f[j]);
                        assert(g[j] == f[j]);
                    } else {
                        assert(!is_octet(g[old_fields]));
                    }
                }
            }
        } else {
            let is_d = '0' <= c && c <= '9';
            if cur_len < 3 && is_d {
                let d: u32 = (c as u32) - 48;
                cur_val = cur_val * 10 + d;
            }
            if cur_len == 0 {
                cur_lead_zero = c == '0';
            }
            cur_digits = cur_digits && is_d;
            cur_len = cur_len + 1;
            proof {
                let g = dot_fields(v@.take(i + 1));
                let nl = f.last().push(c);
                assert(g == f.update(f.len() - 1, nl));
                assert(g.last() == nl);
                assert(nl.drop_last() =~= f.last());
                assert forall|j: int| 0 <= j < fields implies #[trigger] g[j] == f[j] by {}
                assert forall|k: int| 0 <= k < cur_len - 1 implies nl[k] == f.last()[k] by {}
                assert(nl[cur_len - 1] == c);
                if done_ok {
                    assert forall|j: int| 0 <= j < fields implies is_octet(#[trigger] g[j]) by {
                        assert(is_octet(f[j]));
                    }
                } else {
                    let j = choose|j: int| 0 <= j < fields && !is_octet(#[trigger] f[j]);
                    assert(g[j] == f[j]);
                }
                if cur_digits {
                    assert forall|k: int| 0 <= k < cur_len implies is_digit(#[trigger] g.last()[k]) by {
                        if k < cur_len - 1 {
                            assert(nl[k] == f.last()[k]);
                        }
                    }
                } else {
                    if !is_d {
                        assert(!is_digit(g.last()[cur_len - 1]));
                    } else {
                        let k = choose|k: int| 0 <= k < cur_len - 1 && !is_digit(#[trigger] f.last()[k]);
                        assert(nl[k] == f.last()[k]);
                    }
                }
            }
        }
        i = i + 1;
    }
    proof {
        assert(v@.take(n as int) =~= v@);
    }
    let cur_ok = 1 <= cur_len && cur_len <= 3 && cur_digits && !(cur_len > 1 && cur_lead_zero)
        && cur_val <= 255;
    let r = fields == 3 && done_ok && cur_ok;
    proof {
        let f = dot_fields(s@);
        if r {
            assert forall|j: int| 0 <= j < 4 implies is_octet(#[trigger] f[j]) by {
                if j == 3 {
                    assert(f[j] == f.last());
                }
            }
        }
        if is_ipv4(s@) {
            assert(is_octet(f[3]));
            assert(f[3] == f.last());
            assert(fields == 3);
            assert forall|j: int| 0 <= j < fields implies is_octet(#[trigger] f[j]) by {}
        }
    }
    r
}

/// The dotted-quad text of four octets, each in decimal without leading zeros.
pub open spec fn dotted_quad(a: u8, b: u8, c: u8, d: u8) -> Seq<char> {
    decimal(a as nat).push('.') + decimal(b as nat).push('.') + decimal(c as nat).push('.')
        + decimal(d as nat)
}

proof fn lemma_dot_fields_append(s: Seq<char>, t: Seq<char>)
    requires
        forall|i: int| 0 <= i < t.len() ==> t[i] != '.',
    ensures
        dot_fields(s + t) == dot_fields(s).update(
            dot_fields(s).len() - 1,
            dot_fields(s).last() + t,
        ),
        dot_fields(s + t).len() == dot_fields(s).len(),
    decreases t.len(),
{
    lemma_dot_fields_nonempty(s);
    if t.len() == 0 {
        assert(s + t =~= s);
        assert(dot_fields(s).last() + t =~= dot_fields(s).last());
        assert(dot_fields(s).update(dot_fields(s).len() - 1, dot_fields(s).last()) =~= dot_fields(
            s,
        ));
    } else {
        let t0 = t.drop_last();
        lemma_dot_fields_append(s, t0);
        assert((s + t).drop_last() =~= s + t0);
        assert((s + t).last() == t.last());
        let f = dot_fields(s + t0);
        assert(f.last() =~= dot_fields(s).last() + t0);
        assert(f.last().push(t.last()) =~= dot_fields(s).last() + t);
        assert(dot_fields(s + t) =~= dot_fields(s).update(
            dot_fields(s).len() - 1,
            dot_fields(s).last() + t,
        ));
    }
}

proof fn lemma_digit_char_value(d: nat)
    requires
        d < 10,
    ensures
        is_digit(digit_char(d)),
        digit_value(digit_char(d)) == d,
        digit_char(d) != '.',
        d != 0 ==> digit_char(d) != '0',
{
    assert((48 + d) as char as int == 48 + d);
}

/// The decimal notation of a number is made of digits, reads back as the
/// number, and has no leading zero; its length grows with the number.
pub proof fn lemma_decimal_octet(n: nat)
    ensures
        forall|i: int| 0 <= i < decimal(n).len() ==> is_digit(#[trigger] decimal(n)[i]),
        digits_value(decimal(n)) == n,
        n >= 1 ==> decimal(n)[0] != '0',
        n < 10 ==> decimal(n).len() == 1,
        10 <= n < 100 ==> decimal(n).len() == 2,
        100 <= n < 1000 ==> decimal(n).len() == 3,
        n >= 10 ==> decimal(n).len() >= 2,
    decreases n,
{
    lemma_digit_char_value(n % 10);
    if n < 10 {
        assert(decimal(n) == seq![digit_char(n)]);
        assert(decimal(n).drop_last() =~= Seq::<char>::empty());
        assert(decimal(n).last() == digit_char(n));
        assert(digits_value(decimal(n)) == digits_value(Seq::<char>::empty()) * 10 + digit_value(
            digit_char(n),
        ));
    } else {
        lemma_decimal_octet(n / 10);
        let p = decimal(n / 10);
        assert(decimal(n) == p.push(digit_char(n % 10)));
        assert(decimal(n).drop_last() =~= p);
        assert(decimal(n)[0] == p[0]);
        assert(decimal(n).last() == digit_char(n % 10));
        assert(n == (n / 10) * 10 + n % 10) by (nonlinear_arith);
    }
}

proof fn lemma_decimal_is_octet(n: u8)
    ensures
        is_octet(decimal(n as nat)),
        forall|i: int| 0 <= i < decimal(n as nat).len() ==> #[trigger] decimal(n as nat)[i] != '.',
{
    lemma_decimal_octet(n as nat);
}

/// Four octets written in decimal and joined by dots always make an IPv4
/// address.
pub proof fn lemma_dotted_quad_is_ipv4(a: u8, b: u8, c: u8, d: u8)
    ensures
        is_ipv4(dotted_quad(a, b, c, d)),
{
    let da = decimal(a as nat);
    let db = decimal(b as nat);
    let dc = decimal(c as nat);
    let dd = decimal(d as nat);
    lemma_decimal_is_octet(a);
    lemma_decimal_is_octet(b);
    lemma_decimal_is_octet(c);
    lemma_decimal_is_octet(d);
    let e = Seq::<char>::empty();
    lemma_dot_fields_append(e, da);
    assert(e + da =~= da);
    assert(dot_fields(da) =~= seq![da]);
    let s1 = da.push('.');
    assert(s1.drop_last() =~= da);
    assert(dot_fields(s1) =~= seq![da, e]);
    lemma_dot_fields_append(s1, db);
    assert(dot_fields(s1 + db) =~= seq![da, db]);
    let s2 = (s1 + db).push('.');
    assert(s2.drop_last() =~= s1 + db);
    assert(dot_fields(s2) =~= seq![da, db, e]);
    lemma_dot_fields_append(s2, dc);
    assert(dot_fields(s2 + dc) =~= seq![da, db, dc]);
    let s3 = (s2 + dc).push('.');
    assert(s3.drop_last() =~= s2 + dc);
    assert(dot_fields(s3) =~= seq![da, db, dc, e]);
    lemma_dot_fields_append(s3, dd);
    assert(s3 + dd =~= dotted_quad(a, b, c, d));
    assert(dot_fields(dotted_quad(a, b, c, d)) =~= seq![da, db, dc, dd]);
}

/// Three octets joined by dots are no IPv4 address, and neither are five.
pub proof fn lemma_wrong_field_count_refused(a: u8, b: u8, c: u8, d: u8, e: u8)
    ensures
        !is_ipv4(decimal(a as nat).push('.') + decimal(b as nat).push('.') + decimal(c as nat)),
        !is_ipv4(dotted_quad(a, b, c, d).push('.') + decimal(e as nat)),
{
    let da = decimal(a as nat);
    let db = decimal(b as nat);
    let dc = decimal(c as nat);
    let dd = decimal(d as nat);
    let de = decimal(e as nat);
    lemma_decimal_is_octet(a);
    lemma_decimal_is_octet(b);
    lemma_decimal_is_octet(c);
    lemma_decimal_is_octet(d);
    lemma_decimal_is_octet(e);
    let z = Seq::<char>::empty();
    lemma_dot_fields_append(z, da);
    assert(z + da =~= da);
    let s1 = da.push('.');
    assert(s1.drop_last() =~= da);
    lemma_dot_fields_append(s1, db);
    let s2 = (s1 + db).push('.');
    assert(s2.drop_last() =~= s1 + db);
    lemma_dot_fields_append(s2, dc);
    assert(s1 + db.push('.') + dc =~= s2 + dc);
    assert(dot_fields(s2 + dc).len() == 3);
    lemma_dotted_quad_is_ipv4(a, b, c, d);
    let q = dotted_quad(a, b, c, d);
    let s4 = q.push('.');
    assert(s4.drop_last() =~= q);
    lemma_dot_fields_append(s4, de);
    assert(dot_fields(s4 + de).len() == 5);
}

/// A field with a leading zero, or with a value above 255, makes the text no
/// IPv4 address.
pub proof fn lemma_bad_field_refused(a: u8, b: u8, c: u8, n: nat)
    ensures
        n > 255 ==> !is_ipv4(dotted_quad(a, b, c, 0).drop_last() + decimal(n)),
        !is_ipv4(dotted_quad(a, b, c, 0).drop_last() + seq!['0'] + decimal(n)),
{
    let q = dotted_quad(a, b, c, 0);
    let p = q.drop_last();
    lemma_dotted_quad_is_ipv4(a, b, c, 0);
    let f = dot_fields(q);
    assert(decimal(0) == seq![digit_char(0)]);
    assert(q.last() == digit_char(0));
    assert((48 + 0nat) as char as int == 48);
    assert(q.last() != '.');
    lemma_dot_fields_nonempty(p);
    assert(f == dot_fields(p).update(dot_fields(p).len() - 1, dot_fields(p).last().push(q.last())));
    assert(dot_fields(p).last().push(q.last()) == f[3]);
    assert(f[3] == decimal(0));
    assert(dot_fields(p).last() =~= f[3].drop_last());
    assert(dot_fields(p).last() =~= Seq::<char>::empty());
    assert(dot_fields(p).len() == 4);
    lemma_decimal_octet(n);
    assert forall|i: int| 0 <= i < decimal(n).len() implies #[trigger] decimal(n)[i] != '.' by {}
    lemma_dot_fields_append(p, decimal(n));
    let g = dot_fields(p + decimal(n));
    assert(g[3] =~= decimal(n));
    if n > 255 {
        assert(!is_octet(g[3]));
    }
    let z = seq!['0'] + decimal(n);
    assert forall|i: int| 0 <= i < z.len() implies #[trigger] z[i] != '.' by {
        if i > 0 {
            assert(z[i] == decimal(n)[i - 1]);
        }
    }
    lemma_dot_fields_append(p, z);
    let h = dot_fields(p + z);
    assert(h[3] =~= z);
    assert(p + seq!['0'] + decimal(n) =~= p + z);
    if h[3].len() <= 3 {
        assert(z[0] == '0');
        assert(z.len() > 1);
    }
    assert(!is_octet(h[3]));
}

} // verus!
