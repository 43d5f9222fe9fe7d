//! The textual grammar of IP addresses that mapping endpoints are written in.
//!
//! An address is IPv4 when it is four dot-separated decimal octets (one to
//! three digits, no leading zero, at most 255), and IPv6 when it is eight
//! colon-separated groups of one to four hex digits, where the last two groups
//! may be written as an embedded IPv4 address, and where one run of groups may
//! be elided by a single `::` (standing for at least one zero group; the
//! groups before it are plain hex groups).

use vstd::prelude::*;

use crate::config::Family;
use crate::text::{split_chars, split_on, views};

verus! {

pub open spec fn is_dec(c: char) -> bool {
    '0' <= c && c <= '9'
}

pub open spec fn is_hex(c: char) -> bool {
    ||| is_dec(c)
    ||| ('a' <= c && c <= 'f')
    ||| ('A' <= c && c <= 'F')
}

/// The value of a run of decimal digits.
pub open spec fn dec_value(t: Seq<char>) -> nat
    decreases t.len(),
{
    if t.len() == 0 {
        0
    } else {
        dec_value(t.drop_last()) * 10 + ((t.last() as u32) - ('0' as u32)) as nat
    }
}

pub open spec fn dec_octet(t: Seq<char>) -> bool {
    &&& 1 <= t.len() <= 3
    &&& forall|i: int| 0 <= i < t.len() ==> is_dec(#[trigger] t[i])
    &&& (t.len() > 1 ==> t[0] != '0')
    &&& dec_value(t) <= 255
}

pub open spec fn ipv4_text(s: Seq<char>) -> bool {
    let f = split_on(s, '.');
    &&& f.len() == 4
    &&& forall|i: int| 0 <= i < 4 ==> dec_octet(#[trigger] f[i])
}

pub open spec fn hex_group(t: Seq<char>) -> bool {
    &&& 1 <= t.len() <= 4
    &&& forall|i: int| 0 <= i < t.len() ==> is_hex(#[trigger] t[i])
}

/// How many 16-bit groups a colon-separated list of fields stands for: every
/// field a hex group, except that the last one may be an embedded IPv4
/// address, which stands for two groups.
pub open spec fn group_count(f: Seq<Seq<char>>) -> Option<nat> {
    if f.len() == 0 {
        None
    } else if forall|i: int| 0 <= i < f.len() - 1 ==> hex_group(#[trigger] f[i]) {
        if hex_group(f.last()) {
            Some(f.len())
        } else if ipv4_text(f.last()) {
            Some(f.len() + 1)
        } else {
            None
        }
    } else {
        None
    }
}

pub open spec fn has_dcolon_at(s: Seq<char>, p: int) -> bool {
    0 <= p && p + 1 < s.len() && s[p] == ':' && s[p + 1] == ':'
}

/// Groups before a `::`: none, or plain hex groups.
pub open spec fn head_count(h: Seq<char>) -> Option<nat> {
    if h.len() == 0 {
        Some(0)
    } else {
        let f = split_on(h, ':');
        if forall|i: int| 0 <= i < f.len() ==> hex_group(#[trigger] f[i]) {
            Some(f.len())
        } else {
            None
        }
    }
}

/// Groups after a `::`: none, or a group list.
pub open spec fn tail_count(t: Seq<char>) -> Option<nat> {
    if t.len() == 0 {
        Some(0)
    } else {
        group_count(split_on(t, ':'))
    }
}

/// `h :: t` leaves room for at least one elided zero group.
pub open spec fn compressed_ok(h: Seq<char>, t: Seq<char>) -> bool {
    &&& head_count(h) is Some
    &&& tail_count(t) is Some
    &&& head_count(h).unwrap() + tail_count(t).unwrap() <= 7
}

pub open spec fn ipv6_text(s: Seq<char>) -> bool {
    ||| (forall|p: int| !#[trigger] has_dcolon_at(s, p)) && group_count(split_on(s, ':')) == Some(8nat)
    ||| exists|p: int|
        #![trigger has_dcolon_at(s, p)]
        has_dcolon_at(s, p) && (forall|q: int| 0 <= q < p ==> !has_dcolon_at(s, q))
            && compressed_ok(s.take(p), s.skip(p + 2))
}

/// The family of an address text: IPv4 is tried first, then IPv6.
pub open spec fn spec_ip_family(s: Seq<char>) -> Option<Family> {
    if ipv4_text(s) {
        Some(Family::V4)
    } else if ipv6_text(s) {
        Some(Family::V6)
    } else {
        None
    }
}

fn is_dec_char(c: char) -> (b: bool)
    ensures
        b == is_dec(c),
{
    '0' <= c && c <= '9'
}

fn is_hex_char(c: char) -> (b: bool)
    ensures
        b == is_hex(c),
{
    ('0' <= c && c <= '9') || ('a' <= c && c <= 'f') || ('A' <= c && c <= 'F')
}

fn is_dec_octet(t: &Vec<char>) -> (b: bool)
    ensures
        b == dec_octet(t@),
{
    if t.len() < 1 || t.len() > 3 {
        return false;
    }
    let mut v: u32 = 0;
    let mut i: usize = 0;
    while i < t.len()
        invariant
            1 <= t.len() <= 3,
            i <= t.len(),
            forall|j: int| 0 <= j < i ==> is_dec(#[trigger] t@[j]),
            v == dec_value(t@.take(i as int)),
            i == 0 ==> v == 0,
            i == 1 ==> v < 10,
            i == 2 ==> v < 100,
            v < 1000,
        decreases t.len() - i,
    {
        let c = t[i];
        if !is_dec_char(c) {
            return false;
        }
        assert(t@.take(i as int + 1).drop_last() == t@.take(i as int));
        v = v * 10 + ((c as u32) - ('0' as u32));
        i = i + 1;
    }
    assert(t@.take(t.len() as int) == t@);
    if t.len() > 1 && t[0] == '0' {
        return false;
    }
    v <= 255
}

fn is_hex_group(t: &Vec<char>) -> (b: bool)
    ensures
        b == hex_group(t@),
{
    if t.len() < 1 || t.len() > 4 {
        return false;
    }
    let mut i: usize = 0;
    while i < t.len()
        invariant
            i <= t.len(),
            forall|j: int| 0 <= j < i ==> is_hex(#[trigger] t@[j]),
        decreases t.len() - i,
    {
        if !is_hex_char(t[i]) {
            return false;
        }
        i = i + 1;
    }
    true
}

fn is_ipv4(s: &Vec<char>) -> (b: bool)
    ensures
        b == ipv4_text(s@),
{
    let f = split_chars(s, '.');
    if f.len() != 4 {
        return false;
    }
    let mut i: usize = 0;
    while i < 4
        invariant
            f.len() == 4,
            views(f@) == split_on(s@, '.'),
            i <= 4,
            forall|j: int| 0 <= j < i ==> dec_octet(#[trigger] split_on(s@, '.')[j]),
        decreases 4 - i,
    {
        assert(views(f@)[i as int] == f@[i as int]@);
        if !is_dec_octet(&f[i]) {
            return false;
        }
        i = i + 1;
    }
    true
}

proof fn lemma_group_count_ge_len(f: Seq<Seq<char>>)
    ensures
        group_count(f) matches Some(n) ==> n >= f.len(),
{
}

fn group_count_exec(f: &Vec<Vec<char>>) -> (r: Option<usize>)
    requires
        f.len() <= 8,
    ensures
        match r {
            Some(n) => group_count(views(f@)) == Some(n as nat),
            None => group_count(views(f@)) is None,
        },
{
    let ghost fv = views(f@);
    if f.len() == 0 {
        return None;
    }
    let n = f.len();
    let mut i: usize = 0;
    while i + 1 < n
        invariant
            n == f.len(),
            fv == views(f@),
            n >= 1,
            i < n,
            forall|j: int| 0 <= j < i ==> hex_group(#[trigger] fv[j]),
        decreases n - i,
    {
        assert(fv[i as int] == f@[i as int]@);
        if !is_hex_group(&f[i]) {
            return None;
        }
        i = i + 1;
    }
    assert(fv.last() == f@[n - 1]@);
    if is_hex_group(&f[n - 1]) {
        Some(n)
    } else if is_ipv4(&f[n - 1]) {
        Some(n + 1)
    } else {
        None
    }
}

pub fn sub_chars(s: &Vec<char>, a: usize, b: usize) -> (r: Vec<char>)
    requires
        a <= b <= s.len(),
    ensures
        r@ == s@.subrange(a as int, b as int),
{
    let mut r: Vec<char> = Vec::new();
    let mut i = a;
    while i < b
        invariant
            a <= i <= b <= s.len(),
            r@ == s@.subrange(a as int, i as int),
        decreases b - i,
    {
        r.push(s[i]);
        i = i + 1;
    }
    r
}

/// The first `n` characters of `s`.
pub fn prefix_chars(s: &Vec<char>, n: usize) -> (r: Vec<char>)
    requires
        n <= s.len(),
    ensures
        r@ == s@.take(n as int),
{
    let r = sub_chars(s, 0, n);
    assert(s@.subrange(0, n as int) == s@.take(n as int));
    r
}

fn head_count_exec(h: &Vec<char>) -> (r: Option<usize>)
    ensures
        match r {
            Some(n) => head_count(h@) == Some(n as nat),
            None => head_count(h@) is None,
        },
{
    if h.len() == 0 {
        return Some(0);
    }
    let f = split_chars(h, ':');
    let ghost fv = views(f@);
    let mut i: usize = 0;
    while i < f.len()
        invariant
            fv == views(f@),
            fv == split_on(h@, ':'),
            h@.len() > 0,
            i <= f.len(),
            forall|j: int| 0 <= j < i ==> hex_group(#[trigger] fv[j]),
        decreases f.len() - i,
    {
        assert(fv[i as int] == f@[i as int]@);
        if !is_hex_group(&f[i]) {
            return None;
        }
        i = i + 1;
    }
    Some(f.len())
}

/// Whether the groups after a `::` fit in `room` groups.
fn tail_fits(t: &Vec<char>, room: usize) -> (b: bool)
    requires
        room <= 7,
    ensures
        b == (tail_count(t@) is Some && tail_count(t@).unwrap() <= room),
{
    if t.len() == 0 {
        return true;
    }
    let f = split_chars(t, ':');
    if f.len() > 8 {
        proof {
            lemma_group_count_ge_len(views(f@));
        }
        return false;
    }
    match group_count_exec(&f) {
        Some(n) => n <= room,
        None => false,
    }
}

fn is_ipv6(s: &Vec<char>) -> (b: bool)
    ensures
        b == ipv6_text(s@),
{
    let mut p: usize = 0;
    while s.len() >= 2 && p < s.len() - 1 && !(s[p] == ':' && s[p + 1] == ':')
        invariant
            p <= s.len(),
            forall|q: int| 0 <= q < p ==> !has_dcolon_at(s@, q),
        decreases s.len() - p,
    {
        p = p + 1;
    }
    if s.len() >= 2 && p < s.len() - 1 {
        assert(has_dcolon_at(s@, p as int));
        let h = sub_chars(s, 0, p);
        let t = sub_chars(s, p + 2, s.len());
        assert(h@ == s@.take(p as int));
        assert(t@ == s@.skip(p as int + 2));
        let hc = head_count_exec(&h);
        let ok = match hc {
            Some(a) => a <= 7 && tail_fits(&t, 7 - a),
            None => false,
        };
        proof {
            if ipv6_text(s@) {
                let p2 = choose|p2: int|
                    #![trigger has_dcolon_at(s@, p2)]
                    has_dcolon_at(s@, p2) && (forall|q: int| 0 <= q < p2 ==> !has_dcolon_at(s@, q))
                        && compressed_ok(s@.take(p2), s@.skip(p2 + 2));
                if p2 < p {
                    assert(!has_dcolon_at(s@, p2));
                }
                if p2 > p {
                    assert(!has_dcolon_at(s@, p as int));
                }
                assert(p2 == p);
            }
        }
        ok
    } else {
        assert forall|q: int| !#[trigger] has_dcolon_at(s@, q) by {}
        let f = split_chars(s, ':');
        if f.len() > 8 {
            proof {
                lemma_group_count_ge_len(views(f@));
            }
            return false;
        }
        match group_count_exec(&f) {
            Some(n) => n == 8,
            None => false,
        }
    }
}

/// The family of an address written as text, or `None` when the text is not
/// an IPv4 or IPv6 address.
pub fn ip_family(s: &str) -> (r: Option<Family>)
    ensures
        r == spec_ip_family(s@),
{
    let cs = crate::text::chars_of(s);
    if is_ipv4(&cs) {
        Some(Family::V4)
    } else if is_ipv6(&cs) {
        Some(Family::V6)
    } else {
        None
    }
}

} // verus!
