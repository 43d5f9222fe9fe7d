//! Incremental apply: which kernel rules to add, keep and delete.
//!
//! Rules whose defining fields are unchanged are left in place so that their
//! traffic counters survive config edits. Only new rules are added and stale
//! or duplicate rules are deleted.

use vstd::prelude::*;

use crate::model::{Config, Mapping};
use crate::nft::ruleset::{
    content_hash, mapping_kinds, parse_identity, spec_content_hash, spec_mapping_kinds,
    spec_parse_identity, RuleKind,
};
use vstd::utf8::{decode_utf8, encode_utf8, valid_utf8};
use crate::nft::{ApplyReport, ObservedRule};
use crate::text::str_eq;

verus! {

/// The identity of one of our rules: mapping id, kind and content hash.
#[derive(Debug, Clone)]
pub struct RuleKey {
    pub id: String,
    pub kind: RuleKind,
    pub hash: String,
}

impl View for RuleKey {
    type V = (Seq<char>, RuleKind, Seq<char>);

    open spec fn view(&self) -> (Seq<char>, RuleKind, Seq<char>) {
        (self.id@, self.kind, self.hash@)
    }
}

impl RuleKey {
    pub fn duplicate(&self) -> (r: RuleKey)
        ensures
            r@ == self@,
    {
        RuleKey { id: self.id.clone(), kind: self.kind, hash: self.hash.clone() }
    }

    pub fn same(&self, other: &RuleKey) -> (b: bool)
        ensures
            b == (self@ == other@),
    {
        self.id == other.id && self.kind == other.kind && self.hash == other.hash
    }
}

/// Reads bytes as UTF-8 text (`std::str::from_utf8`): the text whose
/// encoding they are, or nothing when they are not valid UTF-8.
#[verifier::external_body]
fn text_from_utf8(bytes: &[u8]) -> (r: Option<&str>)
    ensures
        r is Some <==> valid_utf8(bytes@),
        r matches Some(s) ==> encode_utf8(s@) == bytes@,
{
    std::str::from_utf8(bytes).ok()
}

/// What a kernel rule's comment says of it: the key of one of our rules,
/// or `None` when there is no comment, it is not UTF-8, or it is not ours.
pub open spec fn spec_identify(userdata: Option<Seq<u8>>) -> Option<(Seq<char>, RuleKind, Seq<char>)> {
    match userdata {
        None => None,
        Some(b) => if valid_utf8(b) {
            spec_parse_identity(decode_utf8(b))
        } else {
            None
        },
    }
}

/// Recognises one of our rules on the kernel from its comment (userdata)
/// and handle; a rule without a handle gets handle 0.
pub fn identify_rule(userdata: Option<&[u8]>, handle: Option<u64>) -> (r: Option<ObservedItem>)
    ensures
        match spec_identify(
            match userdata {
                Some(b) => Some(b@),
                None => None,
            },
        ) {
            None => r is None,
            Some(k) => r matches Some(o) && o.key@ == k && o.handle == match handle {
                Some(h) => h,
                None => 0u64,
            },
        },
{
    broadcast use vstd::utf8::encode_utf8_decode_utf8;

    let bytes = match userdata {
        Some(b) => b,
        None => {
            return None;
        },
    };
    let text = match text_from_utf8(bytes) {
        Some(t) => t,
        None => {
            return None;
        },
    };
    assert(decode_utf8(bytes@) == text@);
    match parse_identity(text) {
        None => None,
        Some((id, kind, hash)) => Some(
            ObservedItem {
                key: RuleKey { id, kind, hash },
                handle: match handle {
                    Some(h) => h,
                    None => 0,
                },
            },
        ),
    }
}


/// A rule the config asks for, with the index of its mapping.
#[derive(Debug, Clone)]
pub struct DesiredItem {
    pub key: RuleKey,
    pub mapping_index: usize,
}

/// One of our rules found on the kernel, with its handle (0 when the kernel
/// gave none).
#[derive(Debug, Clone)]
pub struct ObservedItem {
    pub key: RuleKey,
    pub handle: u64,
}

/// A rule to delete: the chain it lives in follows from its kind.
#[derive(Debug, Clone, Copy)]
pub struct Deletion {
    pub kind: RuleKind,
    pub handle: u64,
}

/// What an apply does to the kernel.
#[derive(Debug, Clone)]
pub struct ApplyPlan {
    /// Enable IPv4 forwarding first.
    pub forward_ipv4: bool,
    /// Enable IPv6 forwarding first.
    pub forward_ipv6: bool,
    /// Rules to add, in order.
    pub add: Vec<DesiredItem>,
    /// Rules to delete, in order.
    pub delete: Vec<Deletion>,
    /// Rules that should go but have no handle to delete them by.
    pub skipped: Vec<RuleKey>,
    /// Desired rules already present (left in place).
    pub kept: usize,
}

pub open spec fn key_views(v: Seq<RuleKey>) -> Seq<(Seq<char>, RuleKind, Seq<char>)> {
    Seq::new(v.len(), |i: int| v[i]@)
}

pub open spec fn desired_views(v: Seq<DesiredItem>) -> Seq<((Seq<char>, RuleKind, Seq<char>), usize)> {
    Seq::new(v.len(), |i: int| (v[i].key@, v[i].mapping_index))
}

pub open spec fn observed_views(v: Seq<ObservedItem>) -> Seq<((Seq<char>, RuleKind, Seq<char>), u64)> {
    Seq::new(v.len(), |i: int| (v[i].key@, v[i].handle))
}

proof fn lemma_desired_push(v: Seq<DesiredItem>, d: DesiredItem)
    ensures
        desired_views(v.push(d)) == desired_views(v).push((d.key@, d.mapping_index)),
{
    assert(desired_views(v.push(d)) =~= desired_views(v).push((d.key@, d.mapping_index)));
}

/// The keys of the rules of mapping `idx`.
pub open spec fn mapping_items(m: Mapping, idx: int) -> Seq<((Seq<char>, RuleKind, Seq<char>), usize)> {
    Seq::new(
        spec_mapping_kinds(m).len(),
        |k: int| ((m.id@, spec_mapping_kinds(m)[k], spec_content_hash(m)), idx as usize),
    )
}

/// The desired rules of the first `n` mappings (enabled ones only), in order.
pub open spec fn items_upto(ms: Seq<Mapping>, n: int) -> Seq<((Seq<char>, RuleKind, Seq<char>), usize)>
    decreases n,
{
    if n <= 0 {
        Seq::empty()
    } else if ms[n - 1].enabled {
        items_upto(ms, n - 1) + mapping_items(ms[n - 1], n - 1)
    } else {
        items_upto(ms, n - 1)
    }
}

/// Two mappings that differ at most in their name and description.
pub open spec fn same_rule_fields(a: Mapping, b: Mapping) -> bool {
    &&& a.id@ == b.id@
    &&& a.protocol == b.protocol
    &&& a.listen_ip@ == b.listen_ip@
    &&& a.listen_port == b.listen_port
    &&& a.target_ip@ == b.target_ip@
    &&& a.target_port == b.target_port
    &&& a.enabled == b.enabled
    &&& a.masquerade == b.masquerade
}

proof fn lemma_items_same(ms1: Seq<Mapping>, ms2: Seq<Mapping>, n: int)
    requires
        ms1.len() == ms2.len(),
        0 <= n <= ms1.len(),
        forall|i: int| 0 <= i < ms1.len() ==> same_rule_fields(#[trigger] ms1[i], ms2[i]),
    ensures
        items_upto(ms1, n) == items_upto(ms2, n),
    decreases n,
{
    if n > 0 {
        lemma_items_same(ms1, ms2, n - 1);
        let a = ms1[n - 1];
        let b = ms2[n - 1];
        assert(same_rule_fields(a, b));
        assert(spec_mapping_kinds(a) == spec_mapping_kinds(b));
        assert(spec_content_hash(a) == spec_content_hash(b));
        assert(mapping_items(a, n - 1) =~= mapping_items(b, n - 1));
    }
}

/// Renaming mappings or changing their descriptions leaves the desired rules
/// (their keys) unchanged, so the next apply keeps every rule and its
/// counters.
pub proof fn lemma_cosmetic_edit_keeps_rules(c1: Config, c2: Config)
    requires
        c1.mappings@.len() == c2.mappings@.len(),
        forall|i: int|
            0 <= i < c1.mappings@.len() ==> same_rule_fields(
                #[trigger] c1.mappings@[i],
                c2.mappings@[i],
            ),
    ensures
        items_upto(c1.mappings@, c1.mappings@.len() as int) == items_upto(
            c2.mappings@,
            c2.mappings@.len() as int,
        ),
{
    lemma_items_same(c1.mappings@, c2.mappings@, c1.mappings@.len() as int);
}



/// Desired rules as (key, mapping index), mapping by mapping.
pub fn desired_items(cfg: &Config) -> (r: Vec<DesiredItem>)
    requires
        cfg.mappings.len() <= usize::MAX,
    ensures
        desired_views(r@) == items_upto(cfg.mappings@, cfg.mappings@.len() as int),
{
    let ghost ms = cfg.mappings@;
    let mut out: Vec<DesiredItem> = Vec::new();
    let mut idx: usize = 0;
    assert(desired_views(out@) =~= items_upto(ms, 0));
    while idx < cfg.mappings.len()
        invariant
            ms == cfg.mappings@,
            idx <= ms.len(),
            desired_views(out@) == items_upto(ms, idx as int),
        decreases ms.len() - idx,
    {
        let m = &cfg.mappings[idx];
        if m.enabled {
            let hash = content_hash(m);
            let kinds = mapping_kinds(m);
            let ghost before = desired_views(out@);
            let mut k: usize = 0;
            while k < kinds.len()
                invariant
                    k <= kinds.len(),
                    kinds@ == spec_mapping_kinds(*m),
                    hash@ == spec_content_hash(*m),
                    *m == ms[idx as int],
                    desired_views(out@) == before + mapping_items(*m, idx as int).take(k as int),
                decreases kinds.len() - k,
            {
                let item = DesiredItem {
                    key: RuleKey { id: m.id.clone(), kind: kinds[k], hash: hash.clone() },
                    mapping_index: idx,
                };
                proof {
                    lemma_desired_push(out@, item);
                    let mi = mapping_items(*m, idx as int);
                    assert((item.key@, item.mapping_index) == mi[k as int]);
                    assert(mi.take(k as int + 1) == mi.take(k as int).push(mi[k as int]));
                }
                out.push(item);
                k = k + 1;
            }
            assert(mapping_items(*m, idx as int).take(kinds.len() as int) == mapping_items(
                *m,
                idx as int,
            ));
        }
        idx = idx + 1;
    }
    out
}

/// Some observed rule carries key `k`.
pub open spec fn observed_has(o: Seq<((Seq<char>, RuleKind, Seq<char>), u64)>, k: (Seq<char>, RuleKind, Seq<char>)) -> bool {
    exists|j: int| 0 <= j < o.len() && (#[trigger] o[j]).0 == k
}

/// Some desired rule carries key `k`.
pub open spec fn desired_has(d: Seq<((Seq<char>, RuleKind, Seq<char>), usize)>, k: (Seq<char>, RuleKind, Seq<char>)) -> bool {
    exists|j: int| 0 <= j < d.len() && (#[trigger] d[j]).0 == k
}

/// Observed rule `i` is desired and is the first observed rule with its key:
/// it stays.
pub open spec fn stays(
    d: Seq<((Seq<char>, RuleKind, Seq<char>), usize)>,
    o: Seq<((Seq<char>, RuleKind, Seq<char>), u64)>,
    i: int,
) -> bool {
    desired_has(d, o[i].0) && forall|j: int| 0 <= j < i ==> (#[trigger] o[j]).0 != o[i].0
}

/// The desired rules among the first `n` that are not on the kernel yet.
pub open spec fn adds_upto(
    d: Seq<((Seq<char>, RuleKind, Seq<char>), usize)>,
    o: Seq<((Seq<char>, RuleKind, Seq<char>), u64)>,
    n: int,
) -> Seq<((Seq<char>, RuleKind, Seq<char>), usize)>
    decreases n,
{
    if n <= 0 {
        Seq::empty()
    } else if observed_has(o, d[n - 1].0) {
        adds_upto(d, o, n - 1)
    } else {
        adds_upto(d, o, n - 1).push(d[n - 1])
    }
}

/// How many of the first `n` desired rules are already on the kernel.
pub open spec fn kept_upto(
    d: Seq<((Seq<char>, RuleKind, Seq<char>), usize)>,
    o: Seq<((Seq<char>, RuleKind, Seq<char>), u64)>,
    n: int,
) -> nat
    decreases n,
{
    if n <= 0 {
        0
    } else if observed_has(o, d[n - 1].0) {
        kept_upto(d, o, n - 1) + 1
    } else {
        kept_upto(d, o, n - 1)
    }
}

/// The observed rules among the first `n` that go and can be deleted.
pub open spec fn deletes_upto(
    d: Seq<((Seq<char>, RuleKind, Seq<char>), usize)>,
    o: Seq<((Seq<char>, RuleKind, Seq<char>), u64)>,
    n: int,
) -> Seq<(RuleKind, u64)>
    decreases n,
{
    if n <= 0 {
        Seq::empty()
    } else if !stays(d, o, n - 1) && o[n - 1].1 != 0 {
        deletes_upto(d, o, n - 1).push((o[n - 1].0.1, o[n - 1].1))
    } else {
        deletes_upto(d, o, n - 1)
    }
}

/// The observed rules among the first `n` that go but have no handle.
pub open spec fn skips_upto(
    d: Seq<((Seq<char>, RuleKind, Seq<char>), usize)>,
    o: Seq<((Seq<char>, RuleKind, Seq<char>), u64)>,
    n: int,
) -> Seq<(Seq<char>, RuleKind, Seq<char>)>
    decreases n,
{
    if n <= 0 {
        Seq::empty()
    } else if !stays(d, o, n - 1) && o[n - 1].1 == 0 {
        skips_upto(d, o, n - 1).push(o[n - 1].0)
    } else {
        skips_upto(d, o, n - 1)
    }
}

fn observed_contains(o: &Vec<ObservedItem>, k: &RuleKey) -> (b: bool)
    ensures
        b == observed_has(observed_views(o@), k@),
{
    let ghost ov = observed_views(o@);
    let mut j: usize = 0;
    while j < o.len()
        invariant
            ov == observed_views(o@),
            j <= o.len(),
            forall|q: int| 0 <= q < j ==> (#[trigger] ov[q]).0 != k@,
        decreases o.len() - j,
    {
        if o[j].key.same(k) {
            assert(ov[j as int].0 == k@);
            return true;
        }
        j = j + 1;
    }
    false
}

fn desired_contains(d: &Vec<DesiredItem>, k: &RuleKey) -> (b: bool)
    ensures
        b == desired_has(desired_views(d@), k@),
{
    let ghost dv = desired_views(d@);
    let mut j: usize = 0;
    while j < d.len()
        invariant
            dv == desired_views(d@),
            j <= d.len(),
            forall|q: int| 0 <= q < j ==> (#[trigger] dv[q]).0 != k@,
        decreases d.len() - j,
    {
        if d[j].key.same(k) {
            assert(dv[j as int].0 == k@);
            return true;
        }
        j = j + 1;
    }
    false
}

fn observed_stays(d: &Vec<DesiredItem>, o: &Vec<ObservedItem>, i: usize) -> (b: bool)
    requires
        i < o.len(),
    ensures
        b == stays(desired_views(d@), observed_views(o@), i as int),
{
    let ghost ov = observed_views(o@);
    if !desired_contains(d, &o[i].key) {
        return false;
    }
    let mut j: usize = 0;
    while j < i
        invariant
            ov == observed_views(o@),
            i < o.len(),
            j <= i,
            forall|q: int| 0 <= q < j ==> (#[trigger] ov[q]).0 != ov[i as int].0,
        decreases i - j,
    {
        if o[j].key.same(&o[i].key) {
            assert(ov[j as int].0 == ov[i as int].0);
            return false;
        }
        j = j + 1;
    }
    true
}

proof fn lemma_adds_kept(
    d: Seq<((Seq<char>, RuleKind, Seq<char>), usize)>,
    o: Seq<((Seq<char>, RuleKind, Seq<char>), u64)>,
    n: int,
)
    requires
        0 <= n <= d.len(),
    ensures
        adds_upto(d, o, n).len() + kept_upto(d, o, n) == n,
        (forall|i: int| 0 <= i < n ==> observed_has(o, #[trigger] d[i].0)) ==> adds_upto(d, o, n)
            == Seq::<((Seq<char>, RuleKind, Seq<char>), usize)>::empty(),
    decreases n,
{
    if n > 0 {
        lemma_adds_kept(d, o, n - 1);
    }
}

proof fn lemma_nothing_goes(
    d: Seq<((Seq<char>, RuleKind, Seq<char>), usize)>,
    o: Seq<((Seq<char>, RuleKind, Seq<char>), u64)>,
    n: int,
)
    requires
        0 <= n <= o.len(),
        forall|j: int| 0 <= j < o.len() ==> stays(d, o, j),
    ensures
        deletes_upto(d, o, n) == Seq::<(RuleKind, u64)>::empty(),
        skips_upto(d, o, n) == Seq::<(Seq<char>, RuleKind, Seq<char>)>::empty(),
    decreases n,
{
    if n > 0 {
        lemma_nothing_goes(d, o, n - 1);
        assert(stays(d, o, n - 1));
    }
}

/// Every desired rule is either kept or added, so the counts an apply
/// reports for them add up to the number of desired rules; and applying onto
/// a table that already holds each desired rule once, and nothing else,
/// changes nothing: no rule is added, deleted or skipped and every desired
/// rule is kept.
pub proof fn lemma_apply_settles(
    d: Seq<((Seq<char>, RuleKind, Seq<char>), usize)>,
    o: Seq<((Seq<char>, RuleKind, Seq<char>), u64)>,
)
    ensures
        adds_upto(d, o, d.len() as int).len() + kept_upto(d, o, d.len() as int) == d.len(),
        ({
            &&& forall|i: int| 0 <= i < d.len() ==> observed_has(o, #[trigger] d[i].0)
            &&& forall|j: int| 0 <= j < o.len() ==> desired_has(d, #[trigger] o[j].0)
            &&& forall|i: int, j: int|
                0 <= i < j < o.len() ==> (#[trigger] o[i]).0 != (#[trigger] o[j]).0
        }) ==> {
            &&& adds_upto(d, o, d.len() as int).len() == 0
            &&& kept_upto(d, o, d.len() as int) == d.len()
            &&& deletes_upto(d, o, o.len() as int).len() == 0
            &&& skips_upto(d, o, o.len() as int).len() == 0
        },
{
    lemma_adds_kept(d, o, d.len() as int);
    if {
        &&& forall|i: int| 0 <= i < d.len() ==> observed_has(o, #[trigger] d[i].0)
        &&& forall|j: int| 0 <= j < o.len() ==> desired_has(d, #[trigger] o[j].0)
        &&& forall|i: int, j: int|
            0 <= i < j < o.len() ==> (#[trigger] o[i]).0 != (#[trigger] o[j]).0
    } {
        assert forall|j: int| 0 <= j < o.len() implies stays(d, o, j) by {
            assert(desired_has(d, o[j].0));
            assert forall|q: int| 0 <= q < j implies (#[trigger] o[q]).0 != o[j].0 by {
                assert(o[q].0 != o[j].0);
            }
        }
        lemma_nothing_goes(d, o, o.len() as int);
    }
}

/// Desired item `x` names the mapping it is built from: its index points at
/// an enabled mapping whose id and content hash are the item's, and whose
/// kinds include the item's kind.
pub open spec fn names_its_mapping(ms: Seq<Mapping>, x: ((Seq<char>, RuleKind, Seq<char>), usize)) -> bool {
    let m = ms[x.1 as int];
    &&& x.1 < ms.len()
    &&& m.enabled
    &&& m.id@ == x.0.0
    &&& spec_content_hash(m) == x.0.2
    &&& spec_mapping_kinds(m).contains(x.0.1)
}

proof fn lemma_items_upto_name(ms: Seq<Mapping>, n: int)
    requires
        0 <= n <= ms.len(),
        ms.len() <= usize::MAX,
    ensures
        forall|j: int|
            0 <= j < items_upto(ms, n).len() ==> names_its_mapping(ms, #[trigger] items_upto(ms, n)[j]),
    decreases n,
{
    if n > 0 {
        lemma_items_upto_name(ms, n - 1);
        let prev = items_upto(ms, n - 1);
        let cur = items_upto(ms, n);
        if ms[n - 1].enabled {
            let mi = mapping_items(ms[n - 1], n - 1);
            assert forall|j: int| 0 <= j < cur.len() implies names_its_mapping(ms, #[trigger] cur[j]) by {
                if j < prev.len() {
                    assert(cur[j] == prev[j]);
                } else {
                    let k = j - prev.len();
                    assert(cur[j] == mi[k]);
                    assert(((n - 1) as usize) as int == n - 1);
                    assert(spec_mapping_kinds(ms[n - 1])[k] == mi[k].0.1);
                }
            }
        }
    }
}

/// Every rule a config asks for is built from the right mapping: the index
/// it carries points at an enabled mapping with the rule's id, content hash
/// and kind.
pub proof fn lemma_desired_items_name_their_mapping(ms: Seq<Mapping>)
    requires
        ms.len() <= usize::MAX,
    ensures
        forall|j: int|
            0 <= j < items_upto(ms, ms.len() as int).len() ==> names_its_mapping(
                ms,
                #[trigger] items_upto(ms, ms.len() as int)[j],
            ),
{
    lemma_items_upto_name(ms, ms.len() as int);
}

proof fn lemma_items_upto_complete(ms: Seq<Mapping>, n: int)
    requires
        0 <= n <= ms.len(),
    ensures
        forall|i: int, k: int|
            0 <= i < n && ms[i].enabled && 0 <= k < spec_mapping_kinds(ms[i]).len()
                ==> items_upto(ms, n).contains(
                (
                    (ms[i].id@, #[trigger] spec_mapping_kinds(ms[i])[k], spec_content_hash(ms[i])),
                    i as usize,
                ),
            ),
    decreases n,
{
    if n > 0 {
        lemma_items_upto_complete(ms, n - 1);
        let prev = items_upto(ms, n - 1);
        let cur = items_upto(ms, n);
        assert forall|i: int, k: int|
            0 <= i < n && ms[i].enabled && 0 <= k < spec_mapping_kinds(ms[i]).len() implies cur.contains(
            (
                (ms[i].id@, #[trigger] spec_mapping_kinds(ms[i])[k], spec_content_hash(ms[i])),
                i as usize,
            ),
        ) by {
            let x = ((ms[i].id@, spec_mapping_kinds(ms[i])[k], spec_content_hash(ms[i])), i as usize);
            if i < n - 1 {
                assert(prev.contains(x));
                let q = choose|q: int| 0 <= q < prev.len() && prev[q] == x;
                if ms[n - 1].enabled {
                    assert(cur[q] == prev[q]);
                }
            } else {
                let mi = mapping_items(ms[n - 1], n - 1);
                assert(mi[k] == x);
                assert(cur[prev.len() + k] == mi[k]);
            }
        }
    }
}

/// Every rule a config asks for is there: each enabled mapping contributes
/// one rule of each of its kinds, carrying the mapping's id, content hash
/// and index.
pub proof fn lemma_desired_items_complete(ms: Seq<Mapping>)
    ensures
        forall|i: int, k: int|
            0 <= i < ms.len() && ms[i].enabled && 0 <= k < spec_mapping_kinds(ms[i]).len()
                ==> items_upto(ms, ms.len() as int).contains(
                (
                    (ms[i].id@, #[trigger] spec_mapping_kinds(ms[i])[k], spec_content_hash(ms[i])),
                    i as usize,
                ),
            ),
{
    lemma_items_upto_complete(ms, ms.len() as int);
}

proof fn lemma_adds_are_desired(
    d: Seq<((Seq<char>, RuleKind, Seq<char>), usize)>,
    o: Seq<((Seq<char>, RuleKind, Seq<char>), u64)>,
    n: int,
)
    requires
        0 <= n <= d.len(),
    ensures
        forall|j: int|
            0 <= j < adds_upto(d, o, n).len() ==> exists|i: int|
                0 <= i < n && d[i] == #[trigger] adds_upto(d, o, n)[j],
    decreases n,
{
    if n > 0 {
        lemma_adds_are_desired(d, o, n - 1);
        let prev = adds_upto(d, o, n - 1);
        let cur = adds_upto(d, o, n);
        assert forall|j: int| 0 <= j < cur.len() implies exists|i: int|
            0 <= i < n && d[i] == #[trigger] cur[j] by {
            if j < prev.len() {
                assert(cur[j] == prev[j]);
                let i = choose|i: int| 0 <= i < n - 1 && d[i] == prev[j];
            } else {
                assert(cur[j] == d[n - 1]);
            }
        }
    }
}

/// Every rule an apply adds is built from the right mapping: the index it
/// carries points at an enabled mapping with the rule's id, content hash and
/// kind, whatever is already on the kernel.
pub proof fn lemma_added_items_name_their_mapping(
    ms: Seq<Mapping>,
    o: Seq<((Seq<char>, RuleKind, Seq<char>), u64)>,
)
    requires
        ms.len() <= usize::MAX,
    ensures
        ({
            let d = items_upto(ms, ms.len() as int);
            forall|j: int|
                0 <= j < adds_upto(d, o, d.len() as int).len() ==> names_its_mapping(
                    ms,
                    #[trigger] adds_upto(d, o, d.len() as int)[j],
                )
        }),
{
    let d = items_upto(ms, ms.len() as int);
    lemma_items_upto_name(ms, ms.len() as int);
    lemma_adds_are_desired(d, o, d.len() as int);
    let a = adds_upto(d, o, d.len() as int);
    assert forall|j: int| 0 <= j < a.len() implies names_its_mapping(ms, #[trigger] a[j]) by {
        let i = choose|i: int| 0 <= i < d.len() && d[i] == a[j];
        assert(names_its_mapping(ms, d[i]));
    }
}


/// The forwarding switches an apply turns on: IPv4 for `ip`/`inet` tables,
/// IPv6 for `ip6`/`inet` tables, and neither unless `enable_ip_forward`.
pub open spec fn spec_forwarding(c: Config) -> (bool, bool) {
    let fam = c.nftables.family@;
    (
        c.nftables.enable_ip_forward && (fam == "ip"@ || fam == "inet"@),
        c.nftables.enable_ip_forward && (fam == "ip6"@ || fam == "inet"@),
    )
}

/// Which forwarding switches an apply turns on (IPv4, IPv6).
pub fn forwarding_to_enable(cfg: &Config) -> (r: (bool, bool))
    ensures
        r == spec_forwarding(*cfg),
{
    if !cfg.nftables.enable_ip_forward {
        return (false, false);
    }
    let fam = cfg.nftables.family.as_str();
    let v4 = str_eq(fam, "ip") || str_eq(fam, "inet");
    let v6 = str_eq(fam, "ip6") || str_eq(fam, "inet");
    (v4, v6)
}

pub open spec fn deletion_views(v: Seq<Deletion>) -> Seq<(RuleKind, u64)> {
    Seq::new(v.len(), |i: int| (v[i].kind, v[i].handle))
}

/// Decides an incremental apply of `cfg` onto a table whose rules of ours are
/// `observed`: desired rules already present are kept (their counters
/// survive), missing ones are added, and observed rules that are no longer
/// desired, or repeat a key seen before, are deleted (or skipped when they
/// have no handle).
pub fn apply(cfg: &Config, observed: &Vec<ObservedItem>) -> (p: ApplyPlan)
    ensures
        (p.forward_ipv4, p.forward_ipv6) == spec_forwarding(*cfg),
        ({
            let d = items_upto(cfg.mappings@, cfg.mappings@.len() as int);
            let o = observed_views(observed@);
            &&& desired_views(p.add@) == adds_upto(d, o, d.len() as int)
            &&& p.kept == kept_upto(d, o, d.len() as int)
            &&& deletion_views(p.delete@) == deletes_upto(d, o, o.len() as int)
            &&& key_views(p.skipped@) == skips_upto(d, o, o.len() as int)
        }),
        forall|j: int|
            0 <= j < p.add@.len() ==> names_its_mapping(
                cfg.mappings@,
                (#[trigger] p.add@[j].key@, p.add@[j].mapping_index),
            ),
{
    let (forward_ipv4, forward_ipv6) = forwarding_to_enable(cfg);
    let desired = desired_items(cfg);
    let ghost d = desired_views(desired@);
    let ghost o = observed_views(observed@);

    let mut add: Vec<DesiredItem> = Vec::new();
    let mut kept: usize = 0;
    let mut i: usize = 0;
    assert(desired_views(add@) =~= adds_upto(d, o, 0));
    while i < desired.len()
        invariant
            d == desired_views(desired@),
            o == observed_views(observed@),
            i <= desired.len(),
            desired_views(add@) == adds_upto(d, o, i as int),
            kept == kept_upto(d, o, i as int),
            kept <= i,
        decreases desired.len() - i,
    {
        let item = &desired[i];
        assert(d[i as int].0 == item.key@);
        if observed_contains(observed, &item.key) {
            kept = kept + 1;
        } else {
            let copy = DesiredItem { key: item.key.duplicate(), mapping_index: item.mapping_index };
            proof {
                lemma_desired_push(add@, copy);
            }
            add.push(copy);
        }
        i = i + 1;
    }

    let mut delete: Vec<Deletion> = Vec::new();
    let mut skipped: Vec<RuleKey> = Vec::new();
    let mut j: usize = 0;
    assert(deletion_views(delete@) =~= deletes_upto(d, o, 0));
    assert(key_views(skipped@) =~= skips_upto(d, o, 0));
    while j < observed.len()
        invariant
            d == desired_views(desired@),
            o == observed_views(observed@),
            j <= observed.len(),
            deletion_views(delete@) == deletes_upto(d, o, j as int),
            key_views(skipped@) == skips_upto(d, o, j as int),
        decreases observed.len() - j,
    {
        let raw = &observed[j];
        if !observed_stays(&desired, observed, j) {
            // A rule without a handle cannot be deleted by handle.
            if raw.handle == 0 {
                let k = raw.key.duplicate();
                assert(key_views(skipped@.push(k)) =~= key_views(skipped@).push(k@));
                skipped.push(k);
            } else {
                let del = Deletion { kind: raw.key.kind, handle: raw.handle };
                assert(deletion_views(delete@.push(del)) =~= deletion_views(delete@).push(
                    (del.kind, del.handle),
                ));
                delete.push(del);
            }
        }
        j = j + 1;
    }
    proof {
        assert(cfg.mappings@.len() == cfg.mappings.len());
        assert(d == items_upto(cfg.mappings@, cfg.mappings@.len() as int));
        lemma_added_items_name_their_mapping(cfg.mappings@, o);
        let av = desired_views(add@);
        assert(d.len() == desired.len());
        assert(av == adds_upto(d, o, d.len() as int));
        assert forall|j: int| 0 <= j < add@.len() implies names_its_mapping(
            cfg.mappings@,
            (#[trigger] add@[j].key@, add@[j].mapping_index),
        ) by {
            assert(av[j] == adds_upto(d, o, d.len() as int)[j]);
            assert(av[j] == (add@[j].key@, add@[j].mapping_index));
        }
    }
    ApplyPlan { forward_ipv4, forward_ipv6, add, delete, skipped, kept }
}

/// The counts an apply reports.
pub fn report(p: &ApplyPlan) -> (r: ApplyReport)
    ensures
        r.added == p.add@.len(),
        r.deleted == p.delete@.len(),
        r.kept == p.kept,
{
    ApplyReport { added: p.add.len(), deleted: p.delete.len(), kept: p.kept }
}

/// What `status` shows of the observed rules: mapping id and kind, in order.
pub fn observe(observed: &Vec<ObservedItem>) -> (r: Vec<ObservedRule>)
    ensures
        r@.len() == observed@.len(),
        forall|i: int|
            0 <= i < r@.len() ==> (#[trigger] r@[i]).mapping_id@ == observed@[i].key.id@
                && r@[i].kind == observed@[i].key.kind,
{
    let mut out: Vec<ObservedRule> = Vec::new();
    let mut i: usize = 0;
    while i < observed.len()
        invariant
            i <= observed.len(),
            out@.len() == i,
            forall|q: int|
                0 <= q < i ==> (#[trigger] out@[q]).mapping_id@ == observed@[q].key.id@
                    && out@[q].kind == observed@[q].key.kind,
        decreases observed.len() - i,
    {
        out.push(ObservedRule { mapping_id: observed[i].key.id.clone(), kind: observed[i].key.kind });
        i = i + 1;
    }
    out
}

} // verus!
