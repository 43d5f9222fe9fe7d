//! Desired-rule generation.
//!
//! Produces an abstract representation of the nftables rules that a config
//! implies. It is used for `plan`/`check` display and for diffing against
//! observed rules; the netlink backend materializes it.
//!
//! Each rule carries an identity comment `nporter:v1 id=<id> kind=<kind> h=<hash>`
//! so that our own rules can be told apart from foreign ones.
//!
//! Forward-chain design: the counter rules carry no verdict and the chain
//! policy is `accept`, so a packet is counted and then falls through to the
//! policy, whatever the order of the rules.

use vstd::prelude::*;

use crate::config::{spec_mapping_family, ConfigError, ConfigFault, Family};
use crate::ip::spec_ip_family;
use crate::model::{protocol_text, Config, Mapping, COMMENT_PREFIX};
use crate::nft::{fnv1a, spec_fnv1a};
use crate::text::{
    append, ascii_alnum, chars_of, dec_text, has_prefix, hex16, hex_fixed, is_ascii_alnum, is_ws,
    lemma_hex_no_ws, lemma_lex_irreflexive, lemma_lex_trans, lemma_words_one, lemma_words_then, lex_lt, no_ws, owned,
    skip_chars, split_words, starts_with, str_eq, str_lt, string_of, u64_text, views, words,
};
use vstd::utf8::encode_utf8;

verus! {

#[derive(Debug, Clone, Copy, PartialEq, Eq, Structural, PartialOrd, Ord, Hash)]
pub enum RuleKind {
    /// Destination NAT in the prerouting chain.
    Dnat,
    /// Source NAT (masquerade) in the postrouting chain.
    Masquerade,
    /// Counter on forwarded traffic toward the target. No verdict.
    ForwardIn,
    /// Counter on return traffic from the target. No verdict.
    ForwardReturn,
}

pub open spec fn kind_text(k: RuleKind) -> Seq<char> {
    match k {
        RuleKind::Dnat => "dnat"@,
        RuleKind::Masquerade => "masquerade"@,
        RuleKind::ForwardIn => "forward-in"@,
        RuleKind::ForwardReturn => "forward-return"@,
    }
}

/// The order of the kinds (their declaration order).
pub open spec fn kind_rank(k: RuleKind) -> nat {
    match k {
        RuleKind::Dnat => 0,
        RuleKind::Masquerade => 1,
        RuleKind::ForwardIn => 2,
        RuleKind::ForwardReturn => 3,
    }
}

pub open spec fn spec_parse_kind(s: Seq<char>) -> Option<RuleKind> {
    if s == "dnat"@ {
        Some(RuleKind::Dnat)
    } else if s == "masquerade"@ {
        Some(RuleKind::Masquerade)
    } else if s == "forward-in"@ {
        Some(RuleKind::ForwardIn)
    } else if s == "forward-return"@ {
        Some(RuleKind::ForwardReturn)
    } else {
        None
    }
}

impl RuleKind {
    pub fn as_str(self) -> (r: &'static str)
        ensures
            r@ == kind_text(self),
    {
        match self {
            RuleKind::Dnat => "dnat",
            RuleKind::Masquerade => "masquerade",
            RuleKind::ForwardIn => "forward-in",
            RuleKind::ForwardReturn => "forward-return",
        }
    }

    pub fn parse(s: &str) -> (r: Option<RuleKind>)
        ensures
            r == spec_parse_kind(s@),
    {
        if str_eq(s, "dnat") {
            Some(RuleKind::Dnat)
        } else if str_eq(s, "masquerade") {
            Some(RuleKind::Masquerade)
        } else if str_eq(s, "forward-in") {
            Some(RuleKind::ForwardIn)
        } else if str_eq(s, "forward-return") {
            Some(RuleKind::ForwardReturn)
        } else {
            None
        }
    }

    pub fn rank(self) -> (r: u8)
        ensures
            r as nat == kind_rank(self),
    {
        match self {
            RuleKind::Dnat => 0,
            RuleKind::Masquerade => 1,
            RuleKind::ForwardIn => 2,
            RuleKind::ForwardReturn => 3,
        }
    }
}

/// The base chains of our table.
#[derive(Debug, Clone, Copy, PartialEq, Eq, Structural)]
pub enum ChainName {
    Prerouting,
    Postrouting,
    Forward,
}

pub open spec fn spec_chain_for(k: RuleKind) -> ChainName {
    match k {
        RuleKind::Dnat => ChainName::Prerouting,
        RuleKind::Masquerade => ChainName::Postrouting,
        _ => ChainName::Forward,
    }
}

/// The chain a rule of the given kind lives in.
pub fn chain_for(k: RuleKind) -> (c: ChainName)
    ensures
        c == spec_chain_for(k),
{
    match k {
        RuleKind::Dnat => ChainName::Prerouting,
        RuleKind::Masquerade => ChainName::Postrouting,
        _ => ChainName::Forward,
    }
}

pub open spec fn spec_mapping_kinds(m: Mapping) -> Seq<RuleKind> {
    if m.masquerade {
        seq![RuleKind::Dnat, RuleKind::ForwardIn, RuleKind::ForwardReturn, RuleKind::Masquerade]
    } else {
        seq![RuleKind::Dnat, RuleKind::ForwardIn, RuleKind::ForwardReturn]
    }
}

/// The rule kinds a given mapping produces (masquerade only when enabled).
pub fn mapping_kinds(m: &Mapping) -> (r: Vec<RuleKind>)
    ensures
        r@ == spec_mapping_kinds(*m),
{
    let mut kinds = Vec::new();
    kinds.push(RuleKind::Dnat);
    kinds.push(RuleKind::ForwardIn);
    kinds.push(RuleKind::ForwardReturn);
    if m.masquerade {
        kinds.push(RuleKind::Masquerade);
    }
    assert(kinds@ =~= spec_mapping_kinds(*m));
    kinds
}

/// The text whose hash identifies the meaning of a mapping's rules.
pub open spec fn hash_key(m: Mapping) -> Seq<char> {
    protocol_text(m.protocol) + "|"@ + m.listen_ip@ + "|"@ + dec_text(m.listen_port as nat) + "|"@
        + m.target_ip@ + "|"@ + dec_text(m.target_port as nat)
}

pub open spec fn spec_content_hash(m: Mapping) -> Seq<char> {
    hex_fixed(spec_fnv1a(encode_utf8(hash_key(m))) as nat, 16)
}

/// Stable content hash of the fields that define a mapping's rules: 16 hex
/// digits of the FNV-1a hash of `proto|listen_ip|listen_port|target_ip|target_port`.
pub fn content_hash(m: &Mapping) -> (r: String)
    ensures
        r@ == spec_content_hash(*m),
{
    let mut key = owned(m.protocol.as_str());
    append(&mut key, "|");
    append(&mut key, m.listen_ip.as_str());
    append(&mut key, "|");
    let lp = u64_text(m.listen_port as u64);
    append(&mut key, lp.as_str());
    append(&mut key, "|");
    append(&mut key, m.target_ip.as_str());
    append(&mut key, "|");
    let tp = u64_text(m.target_port as u64);
    append(&mut key, tp.as_str());
    let h = fnv1a(key.as_str());
    hex16(h)
}

pub open spec fn identity_text(id: Seq<char>, kind: RuleKind, hash: Seq<char>) -> Seq<char> {
    COMMENT_PREFIX@ + " id="@ + id + " kind="@ + kind_text(kind) + " h="@ + hash
}

/// Identity comment stamped onto a rule's userdata.
pub fn identity_comment(id: &str, kind: RuleKind, hash: &str) -> (r: String)
    ensures
        r@ == identity_text(id@, kind, hash@),
{
    let mut s = owned(COMMENT_PREFIX);
    append(&mut s, " id=");
    append(&mut s, id);
    append(&mut s, " kind=");
    append(&mut s, kind.as_str());
    append(&mut s, " h=");
    append(&mut s, hash);
    s
}

/// One desired nftables rule, in abstract form (for `plan` display).
#[derive(Debug, Clone)]
pub struct DesiredRule {
    pub mapping_id: String,
    pub kind: RuleKind,
    pub expr: String,
}

impl View for DesiredRule {
    type V = (Seq<char>, RuleKind, Seq<char>);

    open spec fn view(&self) -> (Seq<char>, RuleKind, Seq<char>) {
        (self.mapping_id@, self.kind, self.expr@)
    }
}

impl DesiredRule {
    pub fn duplicate(&self) -> (r: DesiredRule)
        ensures
            r@ == self@,
    {
        DesiredRule { mapping_id: self.mapping_id.clone(), kind: self.kind, expr: self.expr.clone() }
    }
}

pub open spec fn rule_views(v: Seq<DesiredRule>) -> Seq<(Seq<char>, RuleKind, Seq<char>)> {
    Seq::new(v.len(), |i: int| v[i]@)
}

pub open spec fn comment_text(id: Seq<char>, kind: RuleKind) -> Seq<char> {
    COMMENT_PREFIX@ + " id="@ + id + " kind="@ + kind_text(kind)
}

fn comment(id: &str, kind: RuleKind) -> (r: String)
    ensures
        r@ == comment_text(id@, kind),
{
    let mut s = owned(COMMENT_PREFIX);
    append(&mut s, " id=");
    append(&mut s, id);
    append(&mut s, " kind=");
    append(&mut s, kind.as_str());
    s
}

pub open spec fn ip_kw_text(f: Family) -> Seq<char> {
    match f {
        Family::V4 => "ip"@,
        Family::V6 => "ip6"@,
    }
}

fn ip_kw(f: Family) -> (r: &'static str)
    ensures
        r@ == ip_kw_text(f),
{
    match f {
        Family::V4 => "ip",
        Family::V6 => "ip6",
    }
}

pub open spec fn nfproto_text(f: Family) -> Seq<char> {
    match f {
        Family::V4 => "ipv4"@,
        Family::V6 => "ipv6"@,
    }
}

fn nfproto(f: Family) -> (r: &'static str)
    ensures
        r@ == nfproto_text(f),
{
    match f {
        Family::V4 => "ipv4",
        Family::V6 => "ipv6",
    }
}

/// The listen addresses that stand for "any address".
pub open spec fn wildcard(ip: Seq<char>) -> bool {
    ip == "0.0.0.0"@ || ip == "::"@
}

fn is_wildcard(ip: &str) -> (b: bool)
    ensures
        b == wildcard(ip@),
{
    str_eq(ip, "0.0.0.0") || str_eq(ip, "::")
}

pub open spec fn dnat_target_text(f: Family, ip: Seq<char>, port: u16) -> Seq<char> {
    match f {
        Family::V4 => ip + ":"@ + dec_text(port as nat),
        Family::V6 => "["@ + ip + "]:"@ + dec_text(port as nat),
    }
}

fn dnat_target(f: Family, ip: &str, port: u16) -> (r: String)
    ensures
        r@ == dnat_target_text(f, ip@, port),
{
    let p = u64_text(port as u64);
    match f {
        Family::V4 => {
            let mut s = owned(ip);
            append(&mut s, ":");
            append(&mut s, p.as_str());
            s
        },
        Family::V6 => {
            let mut s = owned("[");
            append(&mut s, ip);
            append(&mut s, "]:");
            append(&mut s, p.as_str());
            s
        },
    }
}

/// How the DNAT rule matches incoming traffic: the listen address when one is
/// given, or only the address family for a wildcard listen address.
pub open spec fn listen_match_text(m: Mapping, f: Family) -> Seq<char> {
    if !wildcard(m.listen_ip@) {
        ip_kw_text(f) + " daddr "@ + m.listen_ip@ + " "@ + protocol_text(m.protocol) + " dport "@
            + dec_text(m.listen_port as nat)
    } else {
        "meta nfproto "@ + nfproto_text(f) + " "@ + protocol_text(m.protocol) + " dport "@
            + dec_text(m.listen_port as nat)
    }
}

pub open spec fn dnat_expr(m: Mapping, f: Family) -> Seq<char> {
    listen_match_text(m, f) + " counter dnat "@ + ip_kw_text(f) + " to "@ + dnat_target_text(
        f,
        m.target_ip@,
        m.target_port,
    ) + " comment \""@ + comment_text(m.id@, RuleKind::Dnat) + "\""@
}

pub open spec fn forward_in_expr(m: Mapping, f: Family) -> Seq<char> {
    ip_kw_text(f) + " daddr "@ + m.target_ip@ + " "@ + protocol_text(m.protocol) + " dport "@
        + dec_text(m.target_port as nat) + " counter comment \""@ + comment_text(
        m.id@,
        RuleKind::ForwardIn,
    ) + "\""@
}

pub open spec fn forward_return_expr(m: Mapping, f: Family) -> Seq<char> {
    ip_kw_text(f) + " saddr "@ + m.target_ip@ + " "@ + protocol_text(m.protocol) + " sport "@
        + dec_text(m.target_port as nat) + " counter comment \""@ + comment_text(
        m.id@,
        RuleKind::ForwardReturn,
    ) + "\""@
}

pub open spec fn masquerade_expr(m: Mapping, f: Family) -> Seq<char> {
    ip_kw_text(f) + " daddr "@ + m.target_ip@ + " masquerade comment \""@ + comment_text(
        m.id@,
        RuleKind::Masquerade,
    ) + "\""@
}

/// The rules of one mapping of the given family: DNAT, the two forward
/// counters, and masquerade when the mapping asks for it.
#[verifier::opaque]
pub open spec fn mapping_rule_views(m: Mapping, f: Family) -> Seq<(Seq<char>, RuleKind, Seq<char>)> {
    let base = seq![
        (m.id@, RuleKind::Dnat, dnat_expr(m, f)),
        (m.id@, RuleKind::ForwardIn, forward_in_expr(m, f)),
        (m.id@, RuleKind::ForwardReturn, forward_return_expr(m, f)),
    ];
    if m.masquerade {
        base.push((m.id@, RuleKind::Masquerade, masquerade_expr(m, f)))
    } else {
        base
    }
}

pub open spec fn spec_mapping_rules(m: Mapping) -> Result<
    Seq<(Seq<char>, RuleKind, Seq<char>)>,
    ConfigFault,
> {
    match spec_mapping_family(m) {
        Ok(f) => Ok(mapping_rule_views(m, f)),
        Err(e) => Err(e),
    }
}

/// The text of the rule of kind `k` of mapping `m` in family `f`.
pub open spec fn kind_expr(m: Mapping, f: Family, k: RuleKind) -> Seq<char> {
    match k {
        RuleKind::Dnat => dnat_expr(m, f),
        RuleKind::ForwardIn => forward_in_expr(m, f),
        RuleKind::ForwardReturn => forward_return_expr(m, f),
        RuleKind::Masquerade => masquerade_expr(m, f),
    }
}

/// A mapping whose target address parses has one rule per kind it produces,
/// in that order, each naming the mapping and carrying the text of its kind
/// for the target's family: the DNAT rule matches only the family for a
/// wildcard listen address and the listen address otherwise, the forward
/// rules only count (no verdict), and masquerade is there only when asked.
pub proof fn lemma_mapping_rule_texts(m: Mapping, f: Family)
    requires
        spec_ip_family(m.target_ip@) == Some(f),
    ensures
        spec_mapping_rules(m) matches Ok(v) && v.len() == spec_mapping_kinds(m).len() && forall|
            i: int,
        |
            0 <= i < v.len() ==> (#[trigger] v[i]).0 == m.id@ && v[i].1 == spec_mapping_kinds(
                m,
            )[i] && v[i].2 == kind_expr(m, f, v[i].1),
{
    reveal(mapping_rule_views);
}


fn rule(id: &str, kind: RuleKind, expr: String) -> (r: DesiredRule)
    ensures
        r@ == (id@, kind, expr@),
{
    DesiredRule { mapping_id: owned(id), kind, expr }
}

fn mapping_rules(m: &Mapping) -> (r: Result<Vec<DesiredRule>, ConfigError>)
    ensures
        match r {
            Ok(v) => spec_mapping_rules(*m) == Ok::<_, ConfigFault>(rule_views(v@)),
            Err(e) => spec_mapping_rules(*m) == Err::<Seq<(Seq<char>, RuleKind, Seq<char>)>, _>(
                e@,
            ),
        },
{
    let fam = m.family()?;
    let kw = ip_kw(fam);
    let proto = m.protocol.as_str();
    let lport = u64_text(m.listen_port as u64);
    let tport = u64_text(m.target_port as u64);
    let id = m.id.as_str();

    let mut listen_match = if !is_wildcard(m.listen_ip.as_str()) {
        let mut s = owned(kw);
        append(&mut s, " daddr ");
        append(&mut s, m.listen_ip.as_str());
        s
    } else {
        let mut s = owned("meta nfproto ");
        append(&mut s, nfproto(fam));
        s
    };
    append(&mut listen_match, " ");
    append(&mut listen_match, proto);
    append(&mut listen_match, " dport ");
    append(&mut listen_match, lport.as_str());
    assert(listen_match@ == listen_match_text(*m, fam));

    let mut dnat = listen_match;
    append(&mut dnat, " counter dnat ");
    append(&mut dnat, kw);
    append(&mut dnat, " to ");
    let target = dnat_target(fam, m.target_ip.as_str(), m.target_port);
    append(&mut dnat, target.as_str());
    append(&mut dnat, " comment \"");
    let c = comment(id, RuleKind::Dnat);
    append(&mut dnat, c.as_str());
    append(&mut dnat, "\"");

    let mut fin = owned(kw);
    append(&mut fin, " daddr ");
    append(&mut fin, m.target_ip.as_str());
    append(&mut fin, " ");
    append(&mut fin, proto);
    append(&mut fin, " dport ");
    append(&mut fin, tport.as_str());
    append(&mut fin, " counter comment \"");
    let c = comment(id, RuleKind::ForwardIn);
    append(&mut fin, c.as_str());
    append(&mut fin, "\"");

    let mut fret = owned(kw);
    append(&mut fret, " saddr ");
    append(&mut fret, m.target_ip.as_str());
    append(&mut fret, " ");
    append(&mut fret, proto);
    append(&mut fret, " sport ");
    append(&mut fret, tport.as_str());
    append(&mut fret, " counter comment \"");
    let c = comment(id, RuleKind::ForwardReturn);
    append(&mut fret, c.as_str());
    append(&mut fret, "\"");

    let mut rules: Vec<DesiredRule> = Vec::new();
    rules.push(rule(id, RuleKind::Dnat, dnat));
    rules.push(rule(id, RuleKind::ForwardIn, fin));
    rules.push(rule(id, RuleKind::ForwardReturn, fret));

    // Per-mapping masquerade is authoritative; `default_masquerade` only seeds
    // the default when a mapping is added.
    if m.masquerade {
        let mut masq = owned(kw);
        append(&mut masq, " daddr ");
        append(&mut masq, m.target_ip.as_str());
        append(&mut masq, " masquerade comment \"");
        let c = comment(id, RuleKind::Masquerade);
        append(&mut masq, c.as_str());
        append(&mut masq, "\"");
        rules.push(rule(id, RuleKind::Masquerade, masq));
    }
    proof {
        reveal(mapping_rule_views);
    }
    assert(rule_views(rules@) =~= mapping_rule_views(*m, fam));
    Ok(rules)
}

pub open spec fn id_char(c: char) -> bool {
    is_ascii_alnum(c) || c == '_' || c == '.' || c == '-'
}

/// A mapping id that may go into a rule comment: it starts with an ASCII
/// letter or digit and holds only ASCII letters, digits, `_`, `.` and `-`.
pub open spec fn spec_safe_id(id: Seq<char>) -> bool {
    &&& id.len() > 0
    &&& is_ascii_alnum(id[0])
    &&& forall|i: int| 0 <= i < id.len() ==> id_char(#[trigger] id[i])
}

/// Mapping ids may only contain a conservative character set, since they end
/// up in rule comments parsed by whitespace.
pub fn is_safe_id(id: &str) -> (b: bool)
    ensures
        b == spec_safe_id(id@),
{
    let cs = chars_of(id);
    if cs.len() == 0 || !ascii_alnum(cs[0]) {
        return false;
    }
    let mut i: usize = 0;
    while i < cs.len()
        invariant
            cs@ == id@,
            i <= cs.len(),
            forall|j: int| 0 <= j < i ==> id_char(#[trigger] cs@[j]),
        decreases cs.len() - i,
    {
        let c = cs[i];
        if !(ascii_alnum(c) || c == '_' || c == '.' || c == '-') {
            return false;
        }
        i = i + 1;
    }
    true
}

/// Rule `a` sorts strictly before rule `b`: by mapping id, then by kind.
pub open spec fn key_lt(a: (Seq<char>, RuleKind, Seq<char>), b: (Seq<char>, RuleKind, Seq<char>)) -> bool {
    lex_lt(a.0, b.0) || (a.0 == b.0 && kind_rank(a.1) < kind_rank(b.1))
}

/// Inserts `x` after every rule that does not sort after it.
pub open spec fn insert_by_key(
    s: Seq<(Seq<char>, RuleKind, Seq<char>)>,
    x: (Seq<char>, RuleKind, Seq<char>),
) -> Seq<(Seq<char>, RuleKind, Seq<char>)>
    decreases s.len(),
{
    if s.len() == 0 {
        seq![x]
    } else if key_lt(x, s[0]) {
        seq![x] + s
    } else {
        seq![s[0]] + insert_by_key(s.drop_first(), x)
    }
}

/// The rules in order of (mapping id, kind); rules with equal keys keep their
/// relative order (a stable sort).
pub open spec fn sort_rules(s: Seq<(Seq<char>, RuleKind, Seq<char>)>) -> Seq<(Seq<char>, RuleKind, Seq<char>)>
    decreases s.len(),
{
    if s.len() == 0 {
        s
    } else {
        insert_by_key(sort_rules(s.drop_last()), s.last())
    }
}

/// The rules one mapping contributes: none when it is disabled.
#[verifier::opaque]
pub open spec fn entry_rules(m: Mapping) -> Result<Seq<(Seq<char>, RuleKind, Seq<char>)>, ConfigFault> {
    if !m.enabled {
        Ok(Seq::empty())
    } else if !spec_safe_id(m.id@) {
        Err(ConfigFault::RuleIdUnsafe(m.id@))
    } else {
        spec_mapping_rules(m)
    }
}

/// The rules of the enabled mappings among the first `n`, in config order,
/// or the first fault met.
pub open spec fn rules_upto(ms: Seq<Mapping>, n: int) -> Result<
    Seq<(Seq<char>, RuleKind, Seq<char>)>,
    ConfigFault,
>
    decreases n,
{
    if n <= 0 {
        Ok(Seq::empty())
    } else {
        match rules_upto(ms, n - 1) {
            Err(e) => Err(e),
            Ok(acc) => match entry_rules(ms[n - 1]) {
                Ok(rs) => Ok(acc + rs),
                Err(e) => Err(e),
            },
        }
    }
}

fn entry_rules_exec(m: &Mapping) -> (r: Result<Vec<DesiredRule>, ConfigError>)
    ensures
        match r {
            Ok(v) => entry_rules(*m) == Ok::<_, ConfigFault>(rule_views(v@)),
            Err(e) => entry_rules(*m) == Err::<Seq<(Seq<char>, RuleKind, Seq<char>)>, _>(e@),
        },
{
    proof {
        reveal(entry_rules);
    }
    if !m.enabled {
        let v: Vec<DesiredRule> = Vec::new();
        assert(rule_views(v@) =~= Seq::<(Seq<char>, RuleKind, Seq<char>)>::empty());
        return Ok(v);
    }
    if !is_safe_id(m.id.as_str()) {
        return Err(ConfigError::RuleIdUnsafe { id: m.id.clone() });
    }
    mapping_rules(m)
}

/// The desired rule set of a config: the rules of its enabled mappings,
/// sorted by (mapping id, kind).
pub open spec fn spec_desired_rules(c: Config) -> Result<Seq<(Seq<char>, RuleKind, Seq<char>)>, ConfigFault> {
    match rules_upto(c.mappings@, c.mappings@.len() as int) {
        Ok(u) => Ok(sort_rules(u)),
        Err(e) => Err(e),
    }
}

fn rule_lt(a: &DesiredRule, b: &DesiredRule) -> (r: bool)
    ensures
        r == key_lt(a@, b@),
{
    if str_lt(a.mapping_id.as_str(), b.mapping_id.as_str()) {
        true
    } else if str_eq(a.mapping_id.as_str(), b.mapping_id.as_str()) {
        a.kind.rank() < b.kind.rank()
    } else {
        false
    }
}

proof fn lemma_insert_by_key_at(
    s: Seq<(Seq<char>, RuleKind, Seq<char>)>,
    x: (Seq<char>, RuleKind, Seq<char>),
    p: int,
)
    requires
        0 <= p <= s.len(),
        forall|q: int| 0 <= q < p ==> !key_lt(x, #[trigger] s[q]),
        p < s.len() ==> key_lt(x, s[p]),
    ensures
        insert_by_key(s, x) == s.insert(p, x),
    decreases s.len(),
{
    if s.len() == 0 {
        assert(s.insert(p, x) =~= seq![x]);
    } else if p == 0 {
        assert(s.insert(p, x) =~= seq![x] + s);
    } else {
        assert(!key_lt(x, s[0]));
        let t = s.drop_first();
        assert forall|q: int| 0 <= q < p - 1 implies !key_lt(x, #[trigger] t[q]) by {
            assert(t[q] == s[q + 1]);
        }
        if p - 1 < t.len() {
            assert(t[p - 1] == s[p]);
        }
        lemma_insert_by_key_at(t, x, p - 1);
        assert(seq![s[0]] + t.insert(p - 1, x) =~= s.insert(p, x));
    }
}

/// Inserts `x` into `out` after every rule that does not sort after it.
fn insert_rule(out: &mut Vec<DesiredRule>, x: DesiredRule)
    ensures
        rule_views(final(out)@) == insert_by_key(rule_views(old(out)@), x@),
{
    let ghost s = rule_views(out@);
    let mut p: usize = 0;
    while p < out.len() && !rule_lt(&x, &out[p])
        invariant
            p <= out.len(),
            s == rule_views(out@),
            forall|q: int| 0 <= q < p ==> !key_lt(x@, #[trigger] s[q]),
        decreases out.len() - p,
    {
        p = p + 1;
    }
    proof {
        lemma_insert_by_key_at(s, x@, p as int);
    }
    let ghost xv = x@;
    out.insert(p, x);
    assert(rule_views(out@) =~= s.insert(p as int, xv));
}

proof fn lemma_views_push(v: Seq<DesiredRule>, d: DesiredRule)
    ensures
        rule_views(v.push(d)) == rule_views(v).push(d@),
{
    assert(rule_views(v.push(d)) =~= rule_views(v).push(d@));
}

fn extend_rules(out: &mut Vec<DesiredRule>, rs: &Vec<DesiredRule>)
    ensures
        rule_views(final(out)@) == rule_views(old(out)@) + rule_views(rs@),
{
    let ghost before = rule_views(out@);
    let mut k: usize = 0;
    while k < rs.len()
        invariant
            k <= rs.len(),
            rule_views(out@) == before + rule_views(rs@).take(k as int),
        decreases rs.len() - k,
    {
        let d = rs[k].duplicate();
        proof {
            lemma_views_push(out@, d);
            assert(rule_views(rs@).take(k as int + 1) == rule_views(rs@).take(k as int).push(
                rule_views(rs@)[k as int],
            ));
        }
        out.push(d);
        k = k + 1;
    }
    assert(rule_views(rs@).take(rs.len() as int) == rule_views(rs@));
}

proof fn lemma_rules_upto_err(ms: Seq<Mapping>, n: int, m: int)
    requires
        0 <= n <= m,
        rules_upto(ms, n) is Err,
    ensures
        rules_upto(ms, m) == rules_upto(ms, n),
    decreases m - n,
{
    if m > n {
        lemma_rules_upto_err(ms, n, m - 1);
    }
}

/// Build the full desired rule set for a config (enabled mappings only),
/// sorted by (mapping id, kind).
pub fn desired_rules(cfg: &Config) -> (r: Result<Vec<DesiredRule>, ConfigError>)
    ensures
        match r {
            Ok(v) => spec_desired_rules(*cfg) == Ok::<_, ConfigFault>(rule_views(v@)),
            Err(e) => spec_desired_rules(*cfg) == Err::<Seq<(Seq<char>, RuleKind, Seq<char>)>, _>(e@),
        },
{
    let ghost ms = cfg.mappings@;
    let mut unsorted: Vec<DesiredRule> = Vec::new();
    assert(rule_views(unsorted@) =~= Seq::<(Seq<char>, RuleKind, Seq<char>)>::empty());
    let mut i: usize = 0;
    while i < cfg.mappings.len()
        invariant
            ms == cfg.mappings@,
            i <= ms.len(),
            rules_upto(ms, i as int) == Ok::<_, ConfigFault>(rule_views(unsorted@)),
        decreases ms.len() - i,
    {
        let rs = match entry_rules_exec(&cfg.mappings[i]) {
            Ok(rs) => rs,
            Err(e) => {
                proof {
                    lemma_rules_upto_err(ms, i as int + 1, ms.len() as int);
                }
                return Err(e);
            },
        };
        extend_rules(&mut unsorted, &rs);
        i = i + 1;
    }
    let mut out: Vec<DesiredRule> = Vec::new();
    let ghost u = rule_views(unsorted@);
    let mut j: usize = 0;
    while j < unsorted.len()
        invariant
            u == rule_views(unsorted@),
            j <= unsorted.len(),
            rule_views(out@) == sort_rules(u.take(j as int)),
        decreases unsorted.len() - j,
    {
        assert(u.take(j as int + 1).drop_last() == u.take(j as int));
        insert_rule(&mut out, unsorted[j].duplicate());
        j = j + 1;
    }
    assert(u.take(unsorted.len() as int) == u);
    Ok(out)
}

/// No rule sorts strictly before a rule ahead of it.
pub open spec fn rules_sorted(s: Seq<(Seq<char>, RuleKind, Seq<char>)>) -> bool {
    forall|i: int, j: int| 0 <= i < j < s.len() ==> !key_lt(#[trigger] s[j], #[trigger] s[i])
}

proof fn lemma_key_lt_trans(
    a: (Seq<char>, RuleKind, Seq<char>),
    b: (Seq<char>, RuleKind, Seq<char>),
    c: (Seq<char>, RuleKind, Seq<char>),
)
    requires
        key_lt(a, b),
        key_lt(b, c),
    ensures
        key_lt(a, c),
{
    if lex_lt(a.0, b.0) && lex_lt(b.0, c.0) {
        lemma_lex_trans(a.0, b.0, c.0);
    }
}

proof fn lemma_cons_sorted(
    h: (Seq<char>, RuleKind, Seq<char>),
    t: Seq<(Seq<char>, RuleKind, Seq<char>)>,
)
    requires
        rules_sorted(t),
        forall|j: int| 0 <= j < t.len() ==> !key_lt(#[trigger] t[j], h),
    ensures
        rules_sorted(seq![h] + t),
{
    let r = seq![h] + t;
    assert forall|i: int, j: int| 0 <= i < j < r.len() implies !key_lt(
        #[trigger] r[j],
        #[trigger] r[i],
    ) by {
        assert(r[j] == t[j - 1]);
        if i == 0 {
            assert(r[i] == h);
        } else {
            assert(r[i] == t[i - 1]);
        }
    }
}

proof fn lemma_insert_by_key_sorted(
    s: Seq<(Seq<char>, RuleKind, Seq<char>)>,
    x: (Seq<char>, RuleKind, Seq<char>),
)
    requires
        rules_sorted(s),
    ensures
        rules_sorted(insert_by_key(s, x)),
        insert_by_key(s, x).to_multiset() == s.to_multiset().insert(x),
    decreases s.len(),
{
    broadcast use vstd::seq_lib::group_to_multiset_ensures;

    if s.len() == 0 {
        assert(seq![x] == Seq::<(Seq<char>, RuleKind, Seq<char>)>::empty().push(x));
    } else if key_lt(x, s[0]) {
        assert forall|j: int| 0 <= j < s.len() implies !key_lt(#[trigger] s[j], x) by {
            if j > 0 {
                assert(!key_lt(s[j], s[0]));
            }
            if key_lt(s[j], x) {
                lemma_key_lt_trans(s[j], x, s[0]);
            }
            lemma_key_irreflexive(s[0]);
        }
        lemma_cons_sorted(x, s);
        vstd::seq_lib::lemma_multiset_commutative(seq![x], s);
        assert(seq![x] == Seq::<(Seq<char>, RuleKind, Seq<char>)>::empty().push(x));
    } else {
        let t = s.drop_first();
        assert forall|i: int, j: int| 0 <= i < j < t.len() implies !key_lt(
            #[trigger] t[j],
            #[trigger] t[i],
        ) by {
            assert(t[i] == s[i + 1] && t[j] == s[j + 1]);
        }
        lemma_insert_by_key_sorted(t, x);
        let it = insert_by_key(t, x);
        assert forall|j: int| 0 <= j < it.len() implies !key_lt(#[trigger] it[j], s[0]) by {
            let e = it[j];
            assert(it.contains(e));
            assert(it.to_multiset().count(e) > 0);
            if e != x {
                assert(it.to_multiset().count(e) == t.to_multiset().count(e));
                assert(t.contains(e));
                let k = choose|k: int| 0 <= k < t.len() && t[k] == e;
                assert(s[k + 1] == t[k]);
                assert(!key_lt(s[k + 1], s[0]));
            }
        }
        lemma_cons_sorted(s[0], it);
        vstd::seq_lib::lemma_multiset_commutative(seq![s[0]], it);
        vstd::seq_lib::lemma_multiset_commutative(seq![s[0]], t);
        assert(s =~= seq![s[0]] + t);
        assert(seq![s[0]] == Seq::<(Seq<char>, RuleKind, Seq<char>)>::empty().push(s[0]));
    }
}

proof fn lemma_key_irreflexive(a: (Seq<char>, RuleKind, Seq<char>))
    ensures
        !key_lt(a, a),
{
    lemma_lex_irreflexive(a.0);
}

/// Sorting rules orders them by (mapping id, kind) and keeps exactly the
/// rules it was given.
pub proof fn lemma_sort_rules(s: Seq<(Seq<char>, RuleKind, Seq<char>)>)
    ensures
        rules_sorted(sort_rules(s)),
        sort_rules(s).to_multiset() == s.to_multiset(),
    decreases s.len(),
{
    broadcast use vstd::seq_lib::group_to_multiset_ensures;

    if s.len() > 0 {
        lemma_sort_rules(s.drop_last());
        lemma_insert_by_key_sorted(sort_rules(s.drop_last()), s.last());
        assert(s == s.drop_last().push(s.last()));
    }
}

/// The desired rules of a config come sorted by (mapping id, kind), and are
/// exactly the rules of its enabled mappings.
pub proof fn lemma_desired_rules_sorted(c: Config)
    ensures
        match rules_upto(c.mappings@, c.mappings@.len() as int) {
            Ok(u) => spec_desired_rules(c) == Ok::<_, ConfigFault>(sort_rules(u)) && rules_sorted(
                sort_rules(u),
            ) && sort_rules(u).to_multiset() == u.to_multiset(),
            Err(e) => spec_desired_rules(c) == Err::<Seq<(Seq<char>, RuleKind, Seq<char>)>, _>(e),
        },
{
    if let Ok(u) = rules_upto(c.mappings@, c.mappings@.len() as int) {
        lemma_sort_rules(u);
    }
}


/// The lines of one chain's body: each rule of that chain, indented, in order.
pub open spec fn chain_body(rules: Seq<(Seq<char>, RuleKind, Seq<char>)>, c: ChainName) -> Seq<char>
    decreases rules.len(),
{
    if rules.len() == 0 {
        Seq::empty()
    } else {
        chain_body(rules.drop_last(), c) + if spec_chain_for(rules.last().1) == c {
            "    "@ + rules.last().2 + "\n"@
        } else {
            Seq::empty()
        }
    }
}

/// The rule kinds each chain holds: DNAT in prerouting, masquerade (source
/// NAT) in postrouting, the two counters in forward.
pub open spec fn chain_kinds(c: ChainName) -> Set<RuleKind> {
    match c {
        ChainName::Prerouting => set![RuleKind::Dnat],
        ChainName::Postrouting => set![RuleKind::Masquerade],
        ChainName::Forward => set![RuleKind::ForwardIn, RuleKind::ForwardReturn],
    }
}

/// The rules among `rules` whose kind is in `ks`, in order.
pub open spec fn rules_of_kinds(
    rules: Seq<(Seq<char>, RuleKind, Seq<char>)>,
    ks: Set<RuleKind>,
) -> Seq<(Seq<char>, RuleKind, Seq<char>)>
    decreases rules.len(),
{
    if rules.len() == 0 {
        Seq::empty()
    } else if ks.contains(rules.last().1) {
        rules_of_kinds(rules.drop_last(), ks).push(rules.last())
    } else {
        rules_of_kinds(rules.drop_last(), ks)
    }
}

/// Each rule's text on an indented line of its own, in order.
pub open spec fn rule_lines(rules: Seq<(Seq<char>, RuleKind, Seq<char>)>) -> Seq<char>
    decreases rules.len(),
{
    if rules.len() == 0 {
        Seq::empty()
    } else {
        rule_lines(rules.drop_last()) + "    "@ + rules.last().2 + "\n"@
    }
}

/// Every rule kind lives in exactly one chain: DNAT in prerouting, masquerade
/// in postrouting, and the forward counters in forward.
pub proof fn lemma_chain_of_kind(k: RuleKind)
    ensures
        (spec_chain_for(k) == ChainName::Prerouting) <==> (k == RuleKind::Dnat),
        (spec_chain_for(k) == ChainName::Postrouting) <==> (k == RuleKind::Masquerade),
        (spec_chain_for(k) == ChainName::Forward) <==> (k == RuleKind::ForwardIn || k
            == RuleKind::ForwardReturn),
        forall|c: ChainName| (spec_chain_for(k) == c) <==> #[trigger] chain_kinds(c).contains(k),
{
    assert forall|c: ChainName| (spec_chain_for(k) == c) <==> #[trigger] chain_kinds(c).contains(
        k,
    ) by {}
}

/// A chain's body is exactly the rules of that chain's kinds, in the order
/// they come: the postrouting chain holds the masquerade rules and nothing
/// else, prerouting the DNAT rules, forward the two counters.
pub proof fn lemma_chain_body_rules(rules: Seq<(Seq<char>, RuleKind, Seq<char>)>, c: ChainName)
    ensures
        chain_body(rules, c) == rule_lines(rules_of_kinds(rules, chain_kinds(c))),
    decreases rules.len(),
{
    if rules.len() > 0 {
        lemma_chain_body_rules(rules.drop_last(), c);
        lemma_chain_of_kind(rules.last().1);
        let prev = rules_of_kinds(rules.drop_last(), chain_kinds(c));
        if chain_kinds(c).contains(rules.last().1) {
            assert(prev.push(rules.last()).drop_last() =~= prev);
        }
    }
}

/// The nft-style script of a table holding the given rules.
pub open spec fn ruleset_text(c: Config, rules: Seq<(Seq<char>, RuleKind, Seq<char>)>) -> Seq<char> {
    "table "@ + c.nftables.family@ + " "@ + c.nftables.table_name@ + " {\n"@
        + "  chain prerouting {\n"@
        + "    type nat hook prerouting priority dstnat; policy accept;\n"@
        + chain_body(rules, ChainName::Prerouting) + "  }\n\n"@ + "  chain postrouting {\n"@
        + "    type nat hook postrouting priority srcnat; policy accept;\n"@
        + chain_body(rules, ChainName::Postrouting) + "  }\n\n"@ + "  chain forward {\n"@
        + "    type filter hook forward priority filter; policy accept;\n"@
        + chain_body(rules, ChainName::Forward) + "  }\n}\n"@
}

fn push_chain_body(b: &mut String, rules: &Vec<DesiredRule>, c: ChainName)
    ensures
        final(b)@ == old(b)@ + chain_body(rule_views(rules@), c),
{
    let ghost start = b@;
    let ghost rv = rule_views(rules@);
    let mut i: usize = 0;
    while i < rules.len()
        invariant
            i <= rules.len(),
            rv == rule_views(rules@),
            b@ == start + chain_body(rv.take(i as int), c),
        decreases rules.len() - i,
    {
        let ghost before = b@;
        assert(rv.take(i as int + 1).drop_last() == rv.take(i as int));
        assert(rv.take(i as int + 1).last() == rules@[i as int]@);
        if chain_for(rules[i].kind) == c {
            append(b, "    ");
            append(b, rules[i].expr.as_str());
            append(b, "\n");
            assert(b@ == before + ("    "@ + rules@[i as int].expr@ + "\n"@));
        } else {
            assert(b@ == before + Seq::<char>::empty());
        }
        i = i + 1;
    }
    assert(rv.take(rules.len() as int) == rv);
}

/// Render the rule set as an nft-style script, grouped by chain, for `plan`.
/// Human-readable only; rules are applied via netlink.
pub fn render_ruleset(cfg: &Config) -> (r: Result<String, ConfigError>)
    ensures
        match r {
            Ok(text) => spec_desired_rules(*cfg) matches Ok(rules) && text@ == ruleset_text(
                *cfg,
                rules,
            ),
            Err(e) => spec_desired_rules(*cfg) == Err::<Seq<(Seq<char>, RuleKind, Seq<char>)>, _>(e@),
        },
{
    let rules = desired_rules(cfg)?;
    let mut b = owned("table ");
    append(&mut b, cfg.nftables.family.as_str());
    append(&mut b, " ");
    append(&mut b, cfg.nftables.table_name.as_str());
    append(&mut b, " {\n");
    append(&mut b, "  chain prerouting {\n");
    append(&mut b, "    type nat hook prerouting priority dstnat; policy accept;\n");
    push_chain_body(&mut b, &rules, ChainName::Prerouting);
    append(&mut b, "  }\n\n");
    append(&mut b, "  chain postrouting {\n");
    append(&mut b, "    type nat hook postrouting priority srcnat; policy accept;\n");
    push_chain_body(&mut b, &rules, ChainName::Postrouting);
    append(&mut b, "  }\n\n");
    append(&mut b, "  chain forward {\n");
    append(&mut b, "    type filter hook forward priority filter; policy accept;\n");
    // Counter-only rules (no verdict); the policy accepts. Order-independent.
    push_chain_body(&mut b, &rules, ChainName::Forward);
    append(&mut b, "  }\n}\n");
    Ok(b)
}

/// What the `id=`, `kind=` and `h=` fields of a comment's words say; a later
/// field of the same name overrides an earlier one.
pub open spec fn identity_fields(ws: Seq<Seq<char>>) -> (Option<Seq<char>>, Option<RuleKind>, Seq<char>)
    decreases ws.len(),
{
    if ws.len() == 0 {
        (None, None, Seq::empty())
    } else {
        let (id, kind, hash) = identity_fields(ws.drop_last());
        let w = ws.last();
        if starts_with(w, "id="@) {
            (Some(w.skip(3)), kind, hash)
        } else if starts_with(w, "kind="@) {
            (id, spec_parse_kind(w.skip(5)), hash)
        } else if starts_with(w, "h="@) {
            (id, kind, w.skip(2))
        } else {
            (id, kind, hash)
        }
    }
}

/// The `(id, kind, hash)` an identity comment names: `None` when the comment
/// is not ours or lacks an id or a known kind.
pub open spec fn spec_parse_identity(c: Seq<char>) -> Option<(Seq<char>, RuleKind, Seq<char>)> {
    if !starts_with(c, COMMENT_PREFIX@) {
        None
    } else {
        let (id, kind, hash) = identity_fields(words(c));
        match (id, kind) {
            (Some(i), Some(k)) => Some((i, k, hash)),
            _ => None,
        }
    }
}

proof fn lemma_parse_kind_text(k: RuleKind)
    ensures
        spec_parse_kind(kind_text(k)) == Some(k),
{
    reveal_strlit("dnat");
    reveal_strlit("masquerade");
    reveal_strlit("forward-in");
    reveal_strlit("forward-return");
    match k {
        RuleKind::Dnat => {},
        RuleKind::Masquerade => {
            assert("masquerade"@.len() != "dnat"@.len());
        },
        RuleKind::ForwardIn => {
            assert("forward-in"@.len() != "dnat"@.len());
            assert("forward-in"@[0] != "masquerade"@[0]);
        },
        RuleKind::ForwardReturn => {
            assert("forward-return"@.len() != "dnat"@.len());
            assert("forward-return"@.len() != "masquerade"@.len());
            assert("forward-return"@.len() != "forward-in"@.len());
        },
    }
}

proof fn lemma_not_prefix(w: Seq<char>, p: Seq<char>)
    requires
        w.len() > 0,
        p.len() > 0,
        w[0] != p[0],
    ensures
        !starts_with(w, p),
{
    if w.len() >= p.len() {
        assert(w.take(p.len() as int)[0] == w[0]);
    }
}

proof fn lemma_prefixed(p: Seq<char>, x: Seq<char>)
    ensures
        starts_with(p + x, p),
        (p + x).skip(p.len() as int) == x,
{
    assert((p + x).take(p.len() as int) =~= p);
    assert((p + x).skip(p.len() as int) =~= x);
}

/// The identity comment of a rule reads back as the id, kind and hash it
/// was written with, as long as the id and the hash hold no white space
/// (which a valid mapping id and a content hash never do).
pub proof fn lemma_identity_roundtrip(id: Seq<char>, kind: RuleKind, hash: Seq<char>)
    requires
        no_ws(id),
        no_ws(hash),
    ensures
        spec_parse_identity(identity_text(id, kind, hash)) == Some((id, kind, hash)),
{
    reveal_strlit("nporter:v1");
    reveal_strlit(" id=");
    reveal_strlit(" kind=");
    reveal_strlit(" h=");
    reveal_strlit("id=");
    reveal_strlit("kind=");
    reveal_strlit("h=");
    reveal_strlit("dnat");
    reveal_strlit("masquerade");
    reveal_strlit("forward-in");
    reveal_strlit("forward-return");
    let kt = kind_text(kind);
    let w1 = COMMENT_PREFIX@;
    let w2 = "id="@ + id;
    let w3 = "kind="@ + kt;
    let w4 = "h="@ + hash;
    let sp = seq![' '];
    let text = identity_text(id, kind, hash);
    assert(text =~= w1 + sp + w2 + sp + w3 + sp + w4);
    assert(no_ws(w1));
    assert(no_ws(kt));
    assert(no_ws(w2)) by {
        assert forall|i: int| 0 <= i < w2.len() implies !is_ws(#[trigger] w2[i]) by {
            if i >= 3 {
                assert(w2[i] == id[i - 3]);
            }
        }
    }
    assert(no_ws(w3)) by {
        assert forall|i: int| 0 <= i < w3.len() implies !is_ws(#[trigger] w3[i]) by {
            if i >= 5 {
                assert(w3[i] == kt[i - 5]);
            }
        }
    }
    assert(no_ws(w4)) by {
        assert forall|i: int| 0 <= i < w4.len() implies !is_ws(#[trigger] w4[i]) by {
            if i >= 2 {
                assert(w4[i] == hash[i - 2]);
            }
        }
    }
    lemma_words_one(w1);
    lemma_words_then(w1, w2);
    lemma_words_then(w1 + sp + w2, w3);
    lemma_words_then(w1 + sp + w2 + sp + w3, w4);
    let ws = seq![w1, w2, w3, w4];
    assert(words(text) =~= ws);
    lemma_prefixed(w1, sp + w2 + sp + w3 + sp + w4);
    assert(w1 + (sp + w2 + sp + w3 + sp + w4) =~= text);
    lemma_prefixed("id="@, id);
    lemma_prefixed("kind="@, kt);
    lemma_prefixed("h="@, hash);
    lemma_not_prefix(w1, "id="@);
    lemma_not_prefix(w1, "kind="@);
    lemma_not_prefix(w1, "h="@);
    assert(w3[0] == 'k');
    assert(w4[0] == 'h');
    lemma_not_prefix(w3, "id="@);
    lemma_not_prefix(w4, "id="@);
    lemma_not_prefix(w4, "kind="@);
    lemma_parse_kind_text(kind);
    assert(ws.drop_last() =~= seq![w1, w2, w3]);
    assert(ws.drop_last().drop_last() =~= seq![w1, w2]);
    assert(ws.drop_last().drop_last().drop_last() =~= seq![w1]);
    assert(seq![w1].drop_last() =~= Seq::<Seq<char>>::empty());
    assert(identity_fields(Seq::<Seq<char>>::empty()) == (None::<Seq<char>>, None::<RuleKind>, Seq::<char>::empty()));
    assert(seq![w1].last() == w1);
    assert(identity_fields(seq![w1]) == (None::<Seq<char>>, None::<RuleKind>, Seq::<char>::empty()));
    assert(identity_fields(seq![w1, w2]) == (Some(id), None::<RuleKind>, Seq::<char>::empty()));
    assert(identity_fields(seq![w1, w2, w3]) == (Some(id), Some(kind), Seq::<char>::empty()));
    assert(identity_fields(ws) == (Some(id), Some(kind), hash));
}

/// The identity comment stamped on a rule of a mapping with a safe id reads
/// back as that mapping's id, the rule's kind and the mapping's content
/// hash: this is how `apply` recognises its own rules on the kernel.
pub proof fn lemma_rule_identity_roundtrip(m: Mapping, kind: RuleKind)
    requires
        spec_safe_id(m.id@),
    ensures
        spec_parse_identity(identity_text(m.id@, kind, spec_content_hash(m))) == Some(
            (m.id@, kind, spec_content_hash(m)),
        ),
{
    assert(no_ws(m.id@)) by {
        assert forall|i: int| 0 <= i < m.id@.len() implies !is_ws(#[trigger] m.id@[i]) by {
            assert(id_char(m.id@[i]));
        }
    }
    lemma_hex_no_ws(spec_fnv1a(encode_utf8(hash_key(m))) as nat, 16);
    lemma_identity_roundtrip(m.id@, kind, spec_content_hash(m));
}

/// Parse an identity comment back into `(id, kind, hash)`. `None` if not ours.
pub fn parse_identity(comment: &str) -> (r: Option<(String, RuleKind, String)>)
    ensures
        match r {
            Some((id, kind, hash)) => spec_parse_identity(comment@) == Some((id@, kind, hash@)),
            None => spec_parse_identity(comment@) is None,
        },
{
    let cs = chars_of(comment);
    let prefix = chars_of(COMMENT_PREFIX);
    if !has_prefix(&cs, &prefix) {
        return None;
    }
    let p_id = chars_of("id=");
    let p_kind = chars_of("kind=");
    let p_h = chars_of("h=");
    proof {
        reveal_strlit("id=");
        reveal_strlit("kind=");
        reveal_strlit("h=");
    }
    let ws = split_words(&cs);
    let ghost wv = views(ws@);
    let mut id: Option<Vec<char>> = None;
    let mut kind: Option<RuleKind> = None;
    let mut hash: Vec<char> = Vec::new();
    let mut i: usize = 0;
    while i < ws.len()
        invariant
            i <= ws.len(),
            wv == views(ws@),
            wv == words(cs@),
            p_id@ == "id="@,
            p_kind@ == "kind="@,
            p_h@ == "h="@,
            p_id@.len() == 3,
            p_kind@.len() == 5,
            p_h@.len() == 2,
            identity_fields(wv.take(i as int)) == (
                match id {
                    Some(v) => Some(v@),
                    None => None::<Seq<char>>,
                },
                kind,
                hash@,
            ),
        decreases ws.len() - i,
    {
        assert(wv.take(i as int + 1).drop_last() == wv.take(i as int));
        assert(wv.take(i as int + 1).last() == ws@[i as int]@);
        let w = &ws[i];
        if has_prefix(w, &p_id) {
            id = Some(skip_chars(w, 3));
        } else if has_prefix(w, &p_kind) {
            let rest = string_of(&skip_chars(w, 5));
            kind = RuleKind::parse(rest.as_str());
        } else if has_prefix(w, &p_h) {
            hash = skip_chars(w, 2);
        }
        i = i + 1;
    }
    assert(wv.take(ws.len() as int) == wv);
    match (id, kind) {
        (Some(v), Some(k)) => Some((string_of(&v), k, string_of(&hash))),
        _ => None,
    }
}

} // verus!
