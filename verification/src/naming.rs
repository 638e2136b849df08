//! Naming the devices that a scan finds: which devices still lack an alias,
//! the alias that a line typed by the user gives, and the names given
//! without asking (`dev` and a running number).

use vstd::prelude::*;
use crate::alias::{has_ip, AliasTable, Light};
use crate::packet::{GoveeDeviceInfo, GoveeMessage, GoveePacket};
use crate::text::{chars_of, decimal, push_char, push_decimal};
use vstd::string::StringExecFns;

verus! {

broadcast use vstd::seq_lib::group_seq_properties;

/// Whether std's `char::is_alphanumeric` holds of `c` (Unicode's Alphabetic
/// or Numeric property).
pub uninterp spec fn char_is_alphanumeric(c: char) -> bool;

/// `c` is an ASCII letter or digit.
pub open spec fn ascii_alphanumeric(c: char) -> bool {
    ('A' <= c && c <= 'Z') || ('a' <= c && c <= 'z') || ('0' <= c && c <= '9')
}

/// std's `char::is_alphanumeric`. Trusted to return the value named
/// `char_is_alphanumeric`, and, for an ASCII character, to hold exactly of
/// the letters and digits; nothing more is stated of other characters.
#[verifier::external_body]
fn is_alphanumeric(c: char) -> (r: bool)
    ensures
        r == char_is_alphanumeric(c),
        (c as int) < 128 ==> (r <==> ascii_alphanumeric(c)),
{
    c.is_alphanumeric()
}

/// The devices of a scan that answered with a handshake from an address that
/// no alias has yet, with their places in the scan, in order.
pub open spec fn unaliased_devices(
    s: Seq<GoveePacket>,
    m: Map<Seq<char>, Light>,
) -> Seq<(usize, GoveeDeviceInfo)>
    decreases s.len(),
{
    if s.len() == 0 {
        Seq::empty()
    } else {
        let r = unaliased_devices(s.drop_last(), m);
        match s.last().msg {
            GoveeMessage::Handshake { cmd: _, data } => if !has_ip(m, data.ip@) {
                r.push(((s.len() - 1) as usize, data))
            } else {
                r
            },
            _ => r,
        }
    }
}

proof fn lemma_unaliased_len(s: Seq<GoveePacket>, m: Map<Seq<char>, Light>)
    ensures
        unaliased_devices(s, m).len() <= s.len(),
        forall|j: int|
            0 <= j < unaliased_devices(s, m).len() ==> (#[trigger] unaliased_devices(s, m)[j]).0
                < s.len(),
    decreases s.len(),
{
    if s.len() > 0 {
        lemma_unaliased_len(s.drop_last(), m);
    }
}

/// The devices of the scan `discovered` that still need an alias, each with
/// its place in the scan.
pub fn pending_devices(discovered: Vec<GoveePacket>, lights: &AliasTable) -> (r: Vec<
    (usize, GoveeDeviceInfo),
>)
    ensures
        r@ == unaliased_devices(discovered@, lights@),
{
    let ghost all = discovered@;
    let total = discovered.len();
    let mut rest = discovered;
    let mut r: Vec<(usize, GoveeDeviceInfo)> = Vec::new();
    let mut k: usize = 0;
    proof {
        assert(all.take(0) =~= Seq::<GoveePacket>::empty());
        assert(all.skip(0) =~= all);
    }
    while rest.len() > 0
        invariant
            all.len() == total,
            k + rest@.len() == all.len(),
            rest@ == all.skip(k as int),
            r@ == unaliased_devices(all.take(k as int), lights@),
        decreases rest.len(),
    {
        let p = rest.remove(0);
        proof {
            assert(all.take(k + 1).drop_last() =~= all.take(k as int));
            assert(all.take(k + 1).last() == p);
            assert(all.skip(k + 1) =~= all.skip(k as int).drop_first());
        }
        match p.msg {
            GoveeMessage::Handshake { cmd: _, data } => {
                if !lights.contains_ip(&data.ip) {
                    r.push((k, data));
                }
            },
            _ => {},
        }
        k = k + 1;
    }
    proof {
        assert(all.take(k as int) =~= all);
    }
    r
}

/// `s` without one line break (`\n` or `\r`) at its end.
pub open spec fn strip_line_end(s: Seq<char>) -> Seq<char> {
    if s.len() > 0 && (s.last() == '\n' || s.last() == '\r') {
        s.drop_last()
    } else {
        s
    }
}

/// A space becomes `-`; every other character stays.
pub open spec fn alias_char(c: char) -> char {
    if c == ' ' {
        '-'
    } else {
        c
    }
}

/// The characters that an alias may hold: alphanumerics, `_` and `-`.
pub open spec fn alias_allowed(c: char) -> bool {
    char_is_alphanumeric(c) || c == '_' || c == '-'
}

/// The alias that a typed line gives: one line break at the end dropped,
/// spaces turned into `-`, then every character that an alias may not hold dropped.
pub open spec fn sanitized_alias(line: Seq<char>) -> Seq<char> {
    mapped_line(line).filter(|c: char| alias_allowed(c))
}

/// A typed line with one line break at the end dropped and spaces turned into `-`.
pub open spec fn mapped_line(line: Seq<char>) -> Seq<char> {
    strip_line_end(line).map_values(|c: char| alias_char(c))
}

/// The characters of `chars` that an alias may hold, where `alnum[i]` tells
/// whether `chars[i]` is alphanumeric: those, `_` and `-` stay, in order.
pub open spec fn keep_allowed(chars: Seq<char>, alnum: Seq<bool>) -> Seq<char>
    decreases chars.len(),
{
    if chars.len() == 0 {
        Seq::empty()
    } else {
        let r = keep_allowed(chars.drop_last(), alnum.drop_last());
        let c = chars.last();
        if alnum.last() || c == '_' || c == '-' {
            r.push(c)
        } else {
            r
        }
    }
}

/// With the true answers of `char_is_alphanumeric`, `keep_allowed` keeps
/// exactly the characters that an alias may hold.
pub proof fn lemma_keep_allowed_filters(chars: Seq<char>, alnum: Seq<bool>)
    requires
        chars.len() == alnum.len(),
        forall|i: int| 0 <= i < chars.len() ==> alnum[i] == char_is_alphanumeric(#[trigger] chars[i]),
    ensures
        keep_allowed(chars, alnum) == chars.filter(|c: char| alias_allowed(c)),
    decreases chars.len(),
{
    let keep = |c: char| alias_allowed(c);
    if chars.len() > 0 {
        let c0 = chars.drop_last();
        let a0 = alnum.drop_last();
        assert forall|i: int| 0 <= i < c0.len() implies a0[i] == char_is_alphanumeric(#[trigger] c0[i]) by {
            assert(chars[i] == c0[i]);
        }
        lemma_keep_allowed_filters(c0, a0);
        assert(chars == c0.push(chars.last()));
        c0.lemma_filter_push(chars.last(), keep);
        assert(alnum.last() == char_is_alphanumeric(chars[chars.len() - 1]));
    } else {
        assert(chars.filter(keep) =~= Seq::<char>::empty());
    }
}

/// Builds an alias from the characters `chars`, given for each whether it is
/// alphanumeric (`alnum`): see `keep_allowed`.
pub fn filter_alias_chars(chars: &Vec<char>, alnum: &Vec<bool>) -> (r: String)
    requires
        chars@.len() == alnum@.len(),
    ensures
        r@ == keep_allowed(chars@, alnum@),
{
    let n = chars.len();
    let mut r = String::new();
    let mut i: usize = 0;
    proof {
        assert(chars@.take(0) =~= Seq::<char>::empty());
    }
    while i < n
        invariant
            n == chars@.len(),
            n == alnum@.len(),
            i <= n,
            r@ == keep_allowed(chars@.take(i as int), alnum@.take(i as int)),
        decreases n - i,
    {
        let c = chars[i];
        proof {
            assert(chars@.take(i + 1).drop_last() =~= chars@.take(i as int));
            assert(alnum@.take(i + 1).drop_last() =~= alnum@.take(i as int));
            assert(chars@.take(i + 1).last() == c);
            assert(alnum@.take(i + 1).last() == alnum@[i as int]);
        }
        if alnum[i] || c == '_' || c == '-' {
            push_char(&mut r, c);
        }
        i = i + 1;
    }
    proof {
        assert(chars@.take(n as int) =~= chars@);
        assert(alnum@.take(n as int) =~= alnum@);
    }
    r
}

/// The alias that the line `line`, as the user typed it, gives.
pub fn alias_from_input(line: &str) -> (r: String)
    ensures
        r@ == sanitized_alias(line@),
        forall|i: int|
            0 <= i < mapped_line(line@).len() && ((#[trigger] mapped_line(line@)[i]) as int) < 128
                ==> (char_is_alphanumeric(mapped_line(line@)[i]) <==> ascii_alphanumeric(
                mapped_line(line@)[i],
            )),
{
    let v = chars_of(line);
    let mut n = v.len();
    if n > 0 && (v[n - 1] == '\n' || v[n - 1] == '\r') {
        n = n - 1;
    }
    let ghost t = strip_line_end(line@);
    let ghost f = |c: char| alias_char(c);
    proof {
        assert(t =~= v@.take(n as int));
    }
    let mut mapped: Vec<char> = Vec::new();
    let mut alnum: Vec<bool> = Vec::new();
    let mut i: usize = 0;
    while i < n
        invariant
            n <= v@.len(),
            t == v@.take(n as int),
            i <= n,
            f == (|c: char| alias_char(c)),
            mapped@ == t.take(i as int).map_values(f),
            alnum@.len() == i,
            forall|k: int| 0 <= k < i ==> alnum@[k] == char_is_alphanumeric(#[trigger] mapped@[k]),
            forall|k: int|
                0 <= k < i && ((#[trigger] mapped@[k]) as int) < 128 ==> (char_is_alphanumeric(
                    mapped@[k],
                ) <==> ascii_alphanumeric(mapped@[k])),
        decreases n - i,
    {
        let c0 = v[i];
        let c = if c0 == ' ' {
            '-'
        } else {
            c0
        };
        proof {
            assert(t.take(i + 1).map_values(f) =~= t.take(i as int).map_values(f).push(c));
        }
        mapped.push(c);
        alnum.push(is_alphanumeric(c));
        i = i + 1;
    }
    proof {
        assert(t.take(n as int) =~= t);
        lemma_keep_allowed_filters(mapped@, alnum@);
    }
    filter_alias_chars(&mapped, &alnum)
}

/// The light that the alias `name` names at the device `info`; none where
/// the alias is empty (the device is skipped).
pub fn light_for_device(name: String, info: &GoveeDeviceInfo) -> (r: Option<Light>)
    ensures
        r is Some <==> name@.len() > 0,
        r matches Some(l) ==> l.name == name && l.ip == info.ip && l.mac == info.mac,
{
    if name.as_str().is_empty() {
        None
    } else {
        Some(Light { name, ip: info.ip.clone(), mac: info.mac.clone() })
    }
}

/// The name given without asking to the device that is found `n`-th: `dev` and `n`.
pub open spec fn auto_name(n: nat) -> Seq<char> {
    seq!['d', 'e', 'v'] + decimal(n)
}

/// The lights that naming without asking adds for the scan `discovered`:
/// one for each device that still needs an alias, in order, the `j`-th named
/// `dev` and the number of aliases plus `j`.
pub fn auto_name_devices(discovered: Vec<GoveePacket>, lights: &AliasTable) -> (r: Vec<Light>)
    requires
        lights@.len() + discovered@.len() <= usize::MAX,
    ensures
        r@.len() == unaliased_devices(discovered@, lights@).len(),
        forall|j: int|
            #![trigger r@[j]]
            #![trigger unaliased_devices(discovered@, lights@)[j]]
            0 <= j < r@.len() ==> {
                let d = unaliased_devices(discovered@, lights@)[j].1;
                &&& r@[j].name@ == auto_name((lights@.len() + j) as nat)
                &&& r@[j].ip == d.ip
                &&& r@[j].mac == d.mac
            },
{
    proof {
        lemma_unaliased_len(discovered@, lights@);
    }
    let base = lights.len();
    let pending = pending_devices(discovered, lights);
    let total = pending.len();
    let ghost pend = pending@;
    let mut rest = pending;
    let mut r: Vec<Light> = Vec::new();
    let mut j: usize = 0;
    proof {
        assert(pend.skip(0) =~= pend);
    }
    while rest.len() > 0
        invariant
            pend.len() == total,
            base == lights@.len(),
            base + total <= usize::MAX,
            j + rest@.len() == total,
            rest@ == pend.skip(j as int),
            r@.len() == j,
            forall|i: int|
                0 <= i < j ==> {
                    &&& (#[trigger] r@[i]).name@ == auto_name((base + i) as nat)
                    &&& r@[i].ip == pend[i].1.ip
                    &&& r@[i].mac == pend[i].1.mac
                },
        decreases rest.len(),
    {
        let (_, info) = rest.remove(0);
        proof {
            assert(info == pend[j as int].1);
            assert(pend.skip(j + 1) =~= pend.skip(j as int).drop_first());
        }
        let mut name = String::new();
        name.append("dev");
        push_decimal(&mut name, base + j);
        proof {
            reveal_strlit("dev");
            assert(name@ =~= auto_name((base + j) as nat));
        }
        r.push(Light { name, ip: info.ip, mac: info.mac });
        j = j + 1;
    }
    r
}

/// An alias that a typed line gives holds only alphanumerics, `_` and `-`,
/// and no space.
pub proof fn lemma_sanitized_alias_allowed(line: Seq<char>)
    ensures
        forall|i: int|
            0 <= i < sanitized_alias(line).len() ==> alias_allowed(
                #[trigger] sanitized_alias(line)[i],
            ) && sanitized_alias(line)[i] != ' ',
{
    let f = |c: char| alias_char(c);
    let keep = |c: char| alias_allowed(c);
    let m = strip_line_end(line).map_values(f);
    assert forall|i: int| 0 <= i < sanitized_alias(line).len() implies alias_allowed(
        #[trigger] sanitized_alias(line)[i],
    ) && sanitized_alias(line)[i] != ' ' by {
        m.lemma_filter_pred(keep, i);
        m.lemma_filter_contains_rev(keep, sanitized_alias(line)[i]);
        let j = choose|j: int| 0 <= j < m.len() && m[j] == sanitized_alias(line)[i];
        assert(m[j] == alias_char(strip_line_end(line)[j]));
    }
}

/// Every device that is left to be named answered the scan with a handshake
/// from an address that no alias has; they come in the order of the scan.
pub proof fn lemma_pending_devices_unaliased(s: Seq<GoveePacket>, m: Map<Seq<char>, Light>)
    requires
        s.len() <= usize::MAX,
    ensures
        forall|j: int|
            0 <= j < unaliased_devices(s, m).len() ==> {
                let (i, d) = #[trigger] unaliased_devices(s, m)[j];
                &&& i < s.len()
                &&& s[i as int].msg matches GoveeMessage::Handshake { cmd: _, data } && data == d
                &&& !has_ip(m, d.ip@)
            },
        forall|j: int, k: int|
            0 <= j < k < unaliased_devices(s, m).len() ==> (#[trigger] unaliased_devices(s, m)[j]).0
                < (#[trigger] unaliased_devices(s, m)[k]).0,
    decreases s.len(),
{
    if s.len() > 0 {
        lemma_pending_devices_unaliased(s.drop_last(), m);
        lemma_unaliased_len(s.drop_last(), m);
        let r = unaliased_devices(s.drop_last(), m);
        let u = unaliased_devices(s, m);
        assert forall|j: int| 0 <= j < r.len() implies (#[trigger] r[j]).0 < s.len() - 1 && s[r[j].0 as int] == s.drop_last()[r[j].0 as int] by {}
        match s.last().msg {
            GoveeMessage::Handshake { cmd: _, data } => {
                if !has_ip(m, data.ip@) {
                    assert(u == r.push(((s.len() - 1) as usize, data)));
                    assert(s[s.len() - 1] == s.last());
                } else {
                    assert(u == r);
                }
            },
            _ => {
                assert(u == r);
            },
        }
        assert forall|j: int|
            0 <= j < u.len() implies {
                let (i, d) = #[trigger] u[j];
                &&& i < s.len()
                &&& s[i as int].msg matches GoveeMessage::Handshake { cmd: _, data } && data == d
                &&& !has_ip(m, d.ip@)
            } by {
            if j < r.len() {
                assert(u[j] == r[j]);
            }
        }
        assert forall|j: int, k: int|
            0 <= j < k < u.len() implies (#[trigger] u[j]).0 < (#[trigger] u[k]).0 by {
            if k < r.len() {
                assert(u[j] == r[j]);
                assert(u[k] == r[k]);
            } else {
                assert(u[j] == r[j]);
            }
        }
    }
}

/// The names given without asking to different devices differ.
pub proof fn lemma_auto_names_distinct(a: nat, b: nat)
    requires
        a != b,
    ensures
        auto_name(a) != auto_name(b),
{
    if auto_name(a) == auto_name(b) {
        assert(auto_name(a).skip(3) =~= decimal(a));
        assert(auto_name(b).skip(3) =~= decimal(b));
        crate::text::lemma_decimal_injective(a, b);
    }
}

/// The names given without asking hold only ASCII letters and digits.
pub proof fn lemma_auto_name_ascii(n: nat)
    ensures
        forall|i: int| 0 <= i < auto_name(n).len() ==> ascii_alphanumeric(#[trigger] auto_name(n)[i]),
{
    crate::text::lemma_decimal_digits(n);
    assert forall|i: int| 0 <= i < auto_name(n).len() implies ascii_alphanumeric(#[trigger] auto_name(n)[i]) by {
        if i >= 3 {
            assert(auto_name(n)[i] == decimal(n)[i - 3]);
        }
    }
}

proof fn lemma_filter_all<A>(s: Seq<A>, p: spec_fn(A) -> bool)
    requires
        forall|i: int| 0 <= i < s.len() ==> p(#[trigger] s[i]),
    ensures
        s.filter(p) == s,
    decreases s.len(),
{
    if s.len() == 0 {
        assert(s.filter(p) =~= s);
    } else {
        let t = s.drop_last();
        assert forall|i: int| 0 <= i < t.len() implies p(#[trigger] t[i]) by {
            assert(t[i] == s[i]);
        }
        lemma_filter_all(t, p);
        assert(s == t.push(s.last()));
        t.lemma_filter_push(s.last(), p);
        assert(p(s[s.len() - 1]));
    }
}

/// The alias of a typed line keeps every alphanumeric character, every `_`
/// and every `-` of the line (after the line break is dropped and spaces
/// became `-`), in order, and nothing else.
pub proof fn lemma_alias_keeps_alphanumerics(line: Seq<char>)
    ensures
        sanitized_alias(line) == mapped_line(line).filter(
            |c: char| char_is_alphanumeric(c) || c == '_' || c == '-',
        ),
{
    let p1 = |c: char| alias_allowed(c);
    let p2 = |c: char| char_is_alphanumeric(c) || c == '_' || c == '-';
    assert(p1 =~= p2);
}

/// A line made of ASCII letters, digits, `_` and `-` is its own alias, where
/// the ASCII letters and digits are alphanumeric (as std's
/// `char::is_alphanumeric` holds, and `alias_from_input` states for each
/// ASCII character of the line).
pub proof fn lemma_plain_line_is_own_alias(line: Seq<char>)
    requires
        forall|i: int|
            0 <= i < line.len() ==> ascii_alphanumeric(#[trigger] line[i]) || line[i] == '_'
                || line[i] == '-',
        forall|i: int|
            0 <= i < line.len() ==> (char_is_alphanumeric(#[trigger] line[i]) <==> ascii_alphanumeric(
                line[i],
            )),
    ensures
        sanitized_alias(line) == line,
{
    let f = |c: char| alias_char(c);
    let keep = |c: char| alias_allowed(c);
    if line.len() > 0 {
        let l = line[line.len() - 1];
        assert(ascii_alphanumeric(l) || l == '_' || l == '-');
        assert(l != '\n' && l != '\r');
    }
    assert(strip_line_end(line) == line);
    assert forall|i: int| 0 <= i < line.len() implies line.map_values(f)[i] == line[i] by {
        assert(line[i] != ' ');
    }
    assert(mapped_line(line) =~= line);
    assert forall|i: int| 0 <= i < line.len() implies keep(#[trigger] line[i]) by {}
    lemma_filter_all(line, keep);
}

/// Given a true answer for every character, or a `_` or `-`, every character
/// is kept, in order.
pub proof fn lemma_keep_allowed_keeps_all(chars: Seq<char>, alnum: Seq<bool>)
    requires
        chars.len() == alnum.len(),
        forall|i: int| 0 <= i < chars.len() ==> alnum[i] || #[trigger] chars[i] == '_' || chars[i] == '-',
    ensures
        keep_allowed(chars, alnum) == chars,
    decreases chars.len(),
{
    if chars.len() > 0 {
        let c0 = chars.drop_last();
        let a0 = alnum.drop_last();
        assert forall|i: int| 0 <= i < c0.len() implies a0[i] || #[trigger] c0[i] == '_' || c0[i] == '-' by {
            assert(c0[i] == chars[i]);
            assert(a0[i] == alnum[i]);
        }
        lemma_keep_allowed_keeps_all(c0, a0);
        assert(alnum.last() == alnum[alnum.len() - 1]);
        assert(chars.last() == chars[chars.len() - 1]);
        assert(c0.push(chars.last()) =~= chars);
    }
}

/// No device is passed over: every handshake of the scan from an address
/// that no light of the table has is left to be named, with its place in the scan.
pub proof fn lemma_pending_devices_complete(s: Seq<GoveePacket>, m: Map<Seq<char>, Light>)
    requires
        s.len() <= usize::MAX,
    ensures
        forall|i: int|
            0 <= i < s.len() && (#[trigger] s[i]).msg is Handshake && !has_ip(
                m,
                s[i].msg->Handshake_data.ip@,
            ) ==> exists|j: int|
                0 <= j < unaliased_devices(s, m).len() && unaliased_devices(s, m)[j] == (
                    i as usize,
                    s[i].msg->Handshake_data,
                ),
    decreases s.len(),
{
    if s.len() > 0 {
        let t = s.drop_last();
        lemma_pending_devices_complete(t, m);
        let r = unaliased_devices(t, m);
        let u = unaliased_devices(s, m);
        match s.last().msg {
            GoveeMessage::Handshake { cmd: _, data } => {
                if !has_ip(m, data.ip@) {
                    assert(u == r.push(((s.len() - 1) as usize, data)));
                } else {
                    assert(u == r);
                }
            },
            _ => {
                assert(u == r);
            },
        }
        assert forall|i: int|
            0 <= i < s.len() && (#[trigger] s[i]).msg is Handshake && !has_ip(
                m,
                s[i].msg->Handshake_data.ip@,
            ) implies exists|j: int|
                0 <= j < u.len() && u[j] == (i as usize, s[i].msg->Handshake_data) by {
            if i < s.len() - 1 {
                assert(s[i] == t[i]);
                let j = choose|j: int|
                    0 <= j < r.len() && r[j] == (i as usize, t[i].msg->Handshake_data);
                assert(u[j] == r[j]);
            } else {
                assert(s[i] == s.last());
                assert(u[r.len() as int] == (i as usize, s[i].msg->Handshake_data));
            }
        }
    }
}

/// A name given without asking is `dev` followed by the decimal digits of
/// its number, which read back as that number.
pub proof fn lemma_auto_name_number(n: nat)
    ensures
        auto_name(n).take(3) == seq!['d', 'e', 'v'],
        crate::ipv4::digits_value(auto_name(n).skip(3)) == n,
        forall|i: int| 3 <= i < auto_name(n).len() ==> '0' <= #[trigger] auto_name(n)[i] <= '9',
{
    assert(auto_name(n).take(3) =~= seq!['d', 'e', 'v']);
    assert(auto_name(n).skip(3) =~= decimal(n));
    crate::ipv4::lemma_decimal_octet(n);
    crate::text::lemma_decimal_digits(n);
    assert forall|i: int| 3 <= i < auto_name(n).len() implies '0' <= #[trigger] auto_name(n)[i] <= '9' by {
        assert(auto_name(n)[i] == decimal(n)[i - 3]);
    }
}

} // verus!
