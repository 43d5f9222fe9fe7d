//! Optional UFW route-rule reconciliation.
//!
//! UFW evaluates forwarded packets after the DNAT chain. When UFW's routed
//! policy is deny, enabled mappings need matching route allow rules. Each rule
//! we add carries a comment derived from its content, so that our rules can be
//! told apart from the administrator's.

use vstd::prelude::*;
use vstd::utf8::encode_utf8;

use crate::model::{protocol_text, Config, Mapping};
use crate::nft::{fnv1a, spec_fnv1a};
use crate::text::{
    append, chars_of, dec_text, has_prefix, hex16, hex_fixed, lemma_lex_irreflexive,
    lemma_lex_total, lemma_lex_trans, lex_lt, lines, owned, split_lines, split_words, str_eq,
    str_lt, string_of, trim_quote_chars, trim_quotes, u64_text, views, words, parse_u16,
    spec_parse_u16, is_hex_digit, is_ws, lemma_dec_text_value, lemma_hex_no_ws, lemma_words_one,
    lemma_words_then, no_ws, trim, trim_quotes_end, trim_quotes_start, trim_ws,
};

verus! {

pub const UFW_COMMENT_PREFIX: &'static str = "NPorter:";

/// A UFW route allow rule toward one target.
#[derive(Debug, Clone, PartialEq, Eq, Hash)]
pub struct Rule {
    pub protocol: String,
    pub target_ip: String,
    pub target_port: u16,
}

impl View for Rule {
    type V = (Seq<char>, Seq<char>, u16);

    open spec fn view(&self) -> (Seq<char>, Seq<char>, u16) {
        (self.protocol@, self.target_ip@, self.target_port)
    }
}

pub open spec fn ufw_rule_views(v: Seq<Rule>) -> Seq<(Seq<char>, Seq<char>, u16)> {
    Seq::new(v.len(), |i: int| v[i]@)
}

proof fn lemma_rule_views_push(v: Seq<Rule>, x: Rule)
    ensures
        ufw_rule_views(v.push(x)) == ufw_rule_views(v).push(x@),
{
    assert(ufw_rule_views(v.push(x)) =~= ufw_rule_views(v).push(x@));
}

/// The rule that lets a mapping's forwarded traffic through.
pub open spec fn rule_of(m: Mapping) -> (Seq<char>, Seq<char>, u16) {
    (protocol_text(m.protocol), m.target_ip@, m.target_port)
}

/// The comment that marks a rule as ours: `NPorter:` and 16 hex digits of the
/// FNV-1a hash of `proto|target_ip|target_port`.
pub open spec fn rule_comment_text(r: (Seq<char>, Seq<char>, u16)) -> Seq<char> {
    "NPorter:"@ + hex_fixed(
        spec_fnv1a(encode_utf8(r.0 + "|"@ + r.1 + "|"@ + dec_text(r.2 as nat))) as nat,
        16,
    )
}

/// The arguments of `ufw route` that add (or, after `delete`, remove) a rule.
pub open spec fn rule_args(r: (Seq<char>, Seq<char>, u16)) -> Seq<Seq<char>> {
    seq![
        "allow"@,
        "proto"@,
        r.0,
        "to"@,
        r.1,
        "port"@,
        dec_text(r.2 as nat),
        "comment"@,
        rule_comment_text(r),
    ]
}

/// `ufw route` followed by the rule's arguments, separated by spaces.
pub open spec fn display_text(r: (Seq<char>, Seq<char>, u16)) -> Seq<char> {
    "ufw route "@ + "allow"@ + " "@ + "proto"@ + " "@ + r.0 + " "@ + "to"@ + " "@ + r.1 + " "@
        + "port"@ + " "@ + dec_text(r.2 as nat) + " "@ + "comment"@ + " "@ + rule_comment_text(r)
}

impl Rule {
    pub fn from_mapping(m: &Mapping) -> (r: Rule)
        ensures
            r@ == rule_of(*m),
    {
        Rule {
            protocol: owned(m.protocol.as_str()),
            target_ip: m.target_ip.clone(),
            target_port: m.target_port,
        }
    }

    pub fn duplicate(&self) -> (r: Rule)
        ensures
            r@ == self@,
    {
        Rule {
            protocol: self.protocol.clone(),
            target_ip: self.target_ip.clone(),
            target_port: self.target_port,
        }
    }

    /// Whether two rules are the same.
    pub fn same(&self, other: &Rule) -> (b: bool)
        ensures
            b == (self@ == other@),
    {
        self.protocol == other.protocol && self.target_ip == other.target_ip && self.target_port
            == other.target_port
    }

    pub fn comment(&self) -> (r: String)
        ensures
            r@ == rule_comment_text(self@),
    {
        let mut spec = owned(self.protocol.as_str());
        append(&mut spec, "|");
        append(&mut spec, self.target_ip.as_str());
        append(&mut spec, "|");
        let port = u64_text(self.target_port as u64);
        append(&mut spec, port.as_str());
        let mut s = owned(UFW_COMMENT_PREFIX);
        let h = hex16(fnv1a(spec.as_str()));
        append(&mut s, h.as_str());
        s
    }

    pub fn args(&self) -> (r: Vec<String>)
        ensures
            r@.len() == 9,
            forall|i: int| 0 <= i < 9 ==> (#[trigger] r@[i])@ == rule_args(self@)[i],
    {
        let mut v: Vec<String> = Vec::new();
        v.push(owned("allow"));
        v.push(owned("proto"));
        v.push(self.protocol.clone());
        v.push(owned("to"));
        v.push(self.target_ip.clone());
        v.push(owned("port"));
        v.push(u64_text(self.target_port as u64));
        v.push(owned("comment"));
        v.push(self.comment());
        v
    }

    pub fn display_command(&self) -> (r: String)
        ensures
            r@ == display_text(self@),
    {
        let mut s = owned("ufw route ");
        append(&mut s, "allow");
        append(&mut s, " ");
        append(&mut s, "proto");
        append(&mut s, " ");
        append(&mut s, self.protocol.as_str());
        append(&mut s, " ");
        append(&mut s, "to");
        append(&mut s, " ");
        append(&mut s, self.target_ip.as_str());
        append(&mut s, " ");
        append(&mut s, "port");
        append(&mut s, " ");
        let port = u64_text(self.target_port as u64);
        append(&mut s, port.as_str());
        append(&mut s, " ");
        append(&mut s, "comment");
        append(&mut s, " ");
        let c = self.comment();
        append(&mut s, c.as_str());
        s
    }
}

/// Rule order: by protocol, then target address, then port.
pub open spec fn ufw_lt(a: (Seq<char>, Seq<char>, u16), b: (Seq<char>, Seq<char>, u16)) -> bool {
    ||| lex_lt(a.0, b.0)
    ||| (a.0 == b.0 && lex_lt(a.1, b.1))
    ||| (a.0 == b.0 && a.1 == b.1 && a.2 < b.2)
}

fn rule_lt(a: &Rule, b: &Rule) -> (r: bool)
    ensures
        r == ufw_lt(a@, b@),
{
    if str_lt(a.protocol.as_str(), b.protocol.as_str()) {
        return true;
    }
    if !str_eq(a.protocol.as_str(), b.protocol.as_str()) {
        return false;
    }
    if str_lt(a.target_ip.as_str(), b.target_ip.as_str()) {
        return true;
    }
    if !str_eq(a.target_ip.as_str(), b.target_ip.as_str()) {
        return false;
    }
    a.target_port < b.target_port
}

proof fn lemma_ufw_lt_total(a: (Seq<char>, Seq<char>, u16), b: (Seq<char>, Seq<char>, u16))
    ensures
        a == b || ufw_lt(a, b) || ufw_lt(b, a),
        !(ufw_lt(a, b) && ufw_lt(b, a)),
{
    lemma_lex_total(a.0, b.0);
    lemma_lex_total(a.1, b.1);
    lemma_lex_irreflexive(a.0);
    lemma_lex_irreflexive(a.1);
}

proof fn lemma_ufw_lt_trans(
    a: (Seq<char>, Seq<char>, u16),
    b: (Seq<char>, Seq<char>, u16),
    c: (Seq<char>, Seq<char>, u16),
)
    requires
        ufw_lt(a, b),
        ufw_lt(b, c),
    ensures
        ufw_lt(a, c),
{
    if lex_lt(a.0, b.0) && lex_lt(b.0, c.0) {
        lemma_lex_trans(a.0, b.0, c.0);
    }
    if a.0 == b.0 && b.0 == c.0 && lex_lt(a.1, b.1) && lex_lt(b.1, c.1) {
        lemma_lex_trans(a.1, b.1, c.1);
    }
}

/// Inserts `x` into `s` in order, unless it is there already.
pub open spec fn insert_unique(s: Seq<(Seq<char>, Seq<char>, u16)>, x: (Seq<char>, Seq<char>, u16)) -> Seq<(Seq<char>, Seq<char>, u16)>
    decreases s.len(),
{
    if s.len() == 0 {
        seq![x]
    } else if x == s[0] {
        s
    } else if ufw_lt(x, s[0]) {
        seq![x] + s
    } else {
        seq![s[0]] + insert_unique(s.drop_first(), x)
    }
}

/// The distinct rules of `s`, in rule order.
pub open spec fn sort_unique(s: Seq<(Seq<char>, Seq<char>, u16)>) -> Seq<(Seq<char>, Seq<char>, u16)>
    decreases s.len(),
{
    if s.len() == 0 {
        s
    } else {
        insert_unique(sort_unique(s.drop_last()), s.last())
    }
}

/// The rules of the enabled mappings among the first `n`, in config order.
pub open spec fn enabled_rules(ms: Seq<Mapping>, n: int) -> Seq<(Seq<char>, Seq<char>, u16)>
    decreases n,
{
    if n <= 0 {
        Seq::empty()
    } else if ms[n - 1].enabled {
        enabled_rules(ms, n - 1).push(rule_of(ms[n - 1]))
    } else {
        enabled_rules(ms, n - 1)
    }
}

/// The rules a config asks for: one per distinct target of an enabled
/// mapping, in rule order.
pub open spec fn spec_desired_rules(c: Config) -> Seq<(Seq<char>, Seq<char>, u16)> {
    sort_unique(enabled_rules(c.mappings@, c.mappings@.len() as int))
}

/// Each rule sorts strictly before the ones after it (so none is repeated).
pub open spec fn strictly_sorted(s: Seq<(Seq<char>, Seq<char>, u16)>) -> bool {
    forall|i: int, j: int| 0 <= i < j < s.len() ==> ufw_lt(#[trigger] s[i], #[trigger] s[j])
}

proof fn lemma_insert_unique(s: Seq<(Seq<char>, Seq<char>, u16)>, x: (Seq<char>, Seq<char>, u16))
    requires
        strictly_sorted(s),
    ensures
        strictly_sorted(insert_unique(s, x)),
        forall|y: (Seq<char>, Seq<char>, u16)|
            #[trigger] insert_unique(s, x).contains(y) <==> (s.contains(y) || y == x),
    decreases s.len(),
{
    let r = insert_unique(s, x);
    if s.len() == 0 {
        assert forall|y: (Seq<char>, Seq<char>, u16)| #[trigger] r.contains(y) <==> (s.contains(y)
            || y == x) by {
            if y == x {
                assert(r[0] == x);
            }
        }
    } else if x == s[0] {
        assert forall|y: (Seq<char>, Seq<char>, u16)| #[trigger] r.contains(y) <==> (s.contains(y)
            || y == x) by {
            if y == x {
                assert(s[0] == y);
            }
        }
    } else if ufw_lt(x, s[0]) {
        assert(r == seq![x] + s);
        assert forall|i: int, j: int| 0 <= i < j < r.len() implies ufw_lt(
            #[trigger] r[i],
            #[trigger] r[j],
        ) by {
            if i == 0 {
                assert(r[j] == s[j - 1]);
                if j - 1 > 0 {
                    assert(ufw_lt(s[0], s[j - 1]));
                    lemma_ufw_lt_trans(x, s[0], s[j - 1]);
                }
            } else {
                assert(r[i] == s[i - 1] && r[j] == s[j - 1]);
            }
        }
        assert forall|y: (Seq<char>, Seq<char>, u16)| #[trigger] r.contains(y) <==> (s.contains(y)
            || y == x) by {
            if r.contains(y) {
                let k = choose|k: int| 0 <= k < r.len() && r[k] == y;
                if k > 0 {
                    assert(s[k - 1] == y);
                }
            }
            if s.contains(y) {
                let k = choose|k: int| 0 <= k < s.len() && s[k] == y;
                assert(r[k + 1] == y);
            }
            if y == x {
                assert(r[0] == y);
            }
        }
    } else {
        lemma_ufw_lt_total(x, s[0]);
        let t = s.drop_first();
        assert forall|i: int, j: int| 0 <= i < j < t.len() implies ufw_lt(
            #[trigger] t[i],
            #[trigger] t[j],
        ) by {
            assert(t[i] == s[i + 1] && t[j] == s[j + 1]);
        }
        lemma_insert_unique(t, x);
        let it = insert_unique(t, x);
        assert(r == seq![s[0]] + it);
        assert forall|k: int| 0 <= k < it.len() implies ufw_lt(s[0], #[trigger] it[k]) by {
            assert(it.contains(it[k]));
            if it[k] != x {
                assert(t.contains(it[k]));
                let q = choose|q: int| 0 <= q < t.len() && t[q] == it[k];
                assert(s[q + 1] == t[q]);
            }
        }
        assert forall|i: int, j: int| 0 <= i < j < r.len() implies ufw_lt(
            #[trigger] r[i],
            #[trigger] r[j],
        ) by {
            assert(r[j] == it[j - 1]);
            if i > 0 {
                assert(r[i] == it[i - 1]);
            }
        }
        assert forall|y: (Seq<char>, Seq<char>, u16)| #[trigger] r.contains(y) <==> (s.contains(y)
            || y == x) by {
            if r.contains(y) {
                let k = choose|k: int| 0 <= k < r.len() && r[k] == y;
                if k > 0 {
                    assert(it[k - 1] == y);
                    assert(it.contains(y));
                    if t.contains(y) {
                        let q = choose|q: int| 0 <= q < t.len() && t[q] == y;
                        assert(s[q + 1] == y);
                    }
                }
            }
            if s.contains(y) {
                let k = choose|k: int| 0 <= k < s.len() && s[k] == y;
                if k == 0 {
                    assert(r[0] == y);
                } else {
                    assert(t[k - 1] == y);
                    assert(t.contains(y));
                    assert(it.contains(y));
                    let q = choose|q: int| 0 <= q < it.len() && it[q] == y;
                    assert(r[q + 1] == y);
                }
            }
            if y == x {
                assert(it.contains(y));
                let q = choose|q: int| 0 <= q < it.len() && it[q] == y;
                assert(r[q + 1] == y);
            }
        }
    }
}

proof fn lemma_sort_unique(s: Seq<(Seq<char>, Seq<char>, u16)>)
    ensures
        strictly_sorted(sort_unique(s)),
        forall|y: (Seq<char>, Seq<char>, u16)| #[trigger] sort_unique(s).contains(y) <==> s.contains(y),
    decreases s.len(),
{
    if s.len() > 0 {
        let init = s.drop_last();
        lemma_sort_unique(init);
        lemma_insert_unique(sort_unique(init), s.last());
        assert forall|y: (Seq<char>, Seq<char>, u16)| #[trigger] s.contains(y) <==> (init.contains(y)
            || y == s.last()) by {
            if s.contains(y) {
                let k = choose|k: int| 0 <= k < s.len() && s[k] == y;
                if k < s.len() - 1 {
                    assert(init[k] == y);
                }
            }
            if init.contains(y) {
                let k = choose|k: int| 0 <= k < init.len() && init[k] == y;
                assert(s[k] == y);
            }
            if y == s.last() {
                assert(s[s.len() - 1] == y);
            }
        }
    }
}

/// The UFW rules a config asks for are sorted with none repeated, and are
/// exactly the rules of its enabled mappings.
pub proof fn lemma_ufw_desired_rules(c: Config)
    ensures
        strictly_sorted(spec_desired_rules(c)),
        forall|x: (Seq<char>, Seq<char>, u16)|
            #[trigger] spec_desired_rules(c).contains(x) <==> enabled_rules(
                c.mappings@,
                c.mappings@.len() as int,
            ).contains(x),
{
    lemma_sort_unique(enabled_rules(c.mappings@, c.mappings@.len() as int));
}


proof fn lemma_insert_unique_at(
    s: Seq<(Seq<char>, Seq<char>, u16)>,
    x: (Seq<char>, Seq<char>, u16),
    p: int,
)
    requires
        0 <= p <= s.len(),
        forall|q: int| 0 <= q < p ==> ufw_lt(#[trigger] s[q], x),
        p < s.len() ==> !ufw_lt(s[p], x),
    ensures
        insert_unique(s, x) == if p < s.len() && s[p] == x {
            s
        } else {
            s.insert(p, x)
        },
    decreases s.len(),
{
    if s.len() == 0 {
        assert(s.insert(p, x) =~= seq![x]);
    } else if p == 0 {
        lemma_ufw_lt_total(x, s[0]);
        assert(s.insert(p, x) =~= seq![x] + s);
    } else {
        lemma_ufw_lt_total(x, s[0]);
        let t = s.drop_first();
        assert forall|q: int| 0 <= q < p - 1 implies ufw_lt(#[trigger] t[q], x) by {
            assert(t[q] == s[q + 1]);
        }
        if p - 1 < t.len() {
            assert(t[p - 1] == s[p]);
        }
        lemma_insert_unique_at(t, x, p - 1);
        if p < s.len() && s[p] == x {
            assert(seq![s[0]] + t =~= s);
        } else {
            assert(seq![s[0]] + t.insert(p - 1, x) =~= s.insert(p, x));
        }
    }
}

fn insert_rule(out: &mut Vec<Rule>, x: Rule)
    ensures
        ufw_rule_views(final(out)@) == insert_unique(ufw_rule_views(old(out)@), x@),
{
    let ghost s = ufw_rule_views(out@);
    let mut p: usize = 0;
    while p < out.len() && rule_lt(&out[p], &x)
        invariant
            p <= out.len(),
            s == ufw_rule_views(out@),
            forall|q: int| 0 <= q < p ==> ufw_lt(#[trigger] s[q], x@),
        decreases out.len() - p,
    {
        p = p + 1;
    }
    proof {
        lemma_insert_unique_at(s, x@, p as int);
    }
    if p < out.len() && out[p].same(&x) {
        return;
    }
    let ghost xv = x@;
    out.insert(p, x);
    assert(ufw_rule_views(out@) =~= s.insert(p as int, xv));
}

/// The UFW rules the config asks for: one per distinct (protocol, target)
/// of an enabled mapping, sorted.
pub fn desired_rules(cfg: &Config) -> (r: Vec<Rule>)
    ensures
        ufw_rule_views(r@) == spec_desired_rules(*cfg),
{
    let ghost ms = cfg.mappings@;
    let mut wanted: Vec<Rule> = Vec::new();
    let mut i: usize = 0;
    assert(ufw_rule_views(wanted@) =~= enabled_rules(ms, 0));
    while i < cfg.mappings.len()
        invariant
            ms == cfg.mappings@,
            i <= ms.len(),
            ufw_rule_views(wanted@) == enabled_rules(ms, i as int),
        decreases ms.len() - i,
    {
        if cfg.mappings[i].enabled {
            let r = Rule::from_mapping(&cfg.mappings[i]);
            proof {
                lemma_rule_views_push(wanted@, r);
            }
            wanted.push(r);
        }
        i = i + 1;
    }
    let ghost u = ufw_rule_views(wanted@);
    let mut out: Vec<Rule> = Vec::new();
    let mut j: usize = 0;
    assert(ufw_rule_views(out@) =~= sort_unique(u.take(0)));
    while j < wanted.len()
        invariant
            u == ufw_rule_views(wanted@),
            j <= wanted.len(),
            ufw_rule_views(out@) == sort_unique(u.take(j as int)),
        decreases wanted.len() - j,
    {
        assert(u.take(j as int + 1).drop_last() == u.take(j as int));
        insert_rule(&mut out, wanted[j].duplicate());
        j = j + 1;
    }
    assert(u.take(wanted.len() as int) == u);
    out
}

/// Outcome of a UFW apply.
#[derive(Debug, Default, Clone, Copy)]
pub struct ApplyReport {
    pub added: usize,
    pub deleted: usize,
    pub kept: usize,
}

/// What a UFW apply does: rules to add, rules to delete, and how many of the
/// desired rules were already there.
#[derive(Debug, Default, PartialEq, Eq)]
pub struct Plan {
    pub add: Vec<Rule>,
    pub delete: Vec<Rule>,
    pub kept: usize,
}

/// The rules among the first `n` of `s` that are not in `other`, in order.
pub open spec fn missing_upto(
    s: Seq<(Seq<char>, Seq<char>, u16)>,
    other: Seq<(Seq<char>, Seq<char>, u16)>,
    n: int,
) -> Seq<(Seq<char>, Seq<char>, u16)>
    decreases n,
{
    if n <= 0 {
        Seq::empty()
    } else if other.contains(s[n - 1]) {
        missing_upto(s, other, n - 1)
    } else {
        missing_upto(s, other, n - 1).push(s[n - 1])
    }
}

/// How many distinct rules among the first `n` of `s` are also in `other`.
pub open spec fn shared_upto(
    s: Seq<(Seq<char>, Seq<char>, u16)>,
    other: Seq<(Seq<char>, Seq<char>, u16)>,
    n: int,
) -> nat
    decreases n,
{
    if n <= 0 {
        0
    } else if other.contains(s[n - 1]) && !s.take(n - 1).contains(s[n - 1]) {
        shared_upto(s, other, n - 1) + 1
    } else {
        shared_upto(s, other, n - 1)
    }
}

proof fn lemma_missing_upto(
    s: Seq<(Seq<char>, Seq<char>, u16)>,
    other: Seq<(Seq<char>, Seq<char>, u16)>,
    n: int,
)
    requires
        0 <= n <= s.len(),
    ensures
        forall|x: (Seq<char>, Seq<char>, u16)|
            #[trigger] missing_upto(s, other, n).contains(x) <==> (s.take(n).contains(x)
                && !other.contains(x)),
    decreases n,
{
    if n > 0 {
        lemma_missing_upto(s, other, n - 1);
        let m = missing_upto(s, other, n);
        let m0 = missing_upto(s, other, n - 1);
        assert forall|x: (Seq<char>, Seq<char>, u16)| #[trigger] s.take(n).contains(x) <==> (s.take(
            n - 1,
        ).contains(x) || x == s[n - 1]) by {
            if s.take(n).contains(x) {
                let t = s.take(n);
                let k = choose|k: int| 0 <= k < t.len() && t[k] == x;
                if k < n - 1 {
                    assert(s.take(n - 1)[k] == x);
                }
            }
            if s.take(n - 1).contains(x) {
                let t = s.take(n - 1);
                let k = choose|k: int| 0 <= k < t.len() && t[k] == x;
                assert(s.take(n)[k] == x);
            }
            if x == s[n - 1] {
                assert(s.take(n)[n - 1] == x);
            }
        }
        if !other.contains(s[n - 1]) {
            assert(m == m0.push(s[n - 1]));
            assert forall|x: (Seq<char>, Seq<char>, u16)| #[trigger] m.contains(x) <==> (m0.contains(x)
                || x == s[n - 1]) by {
                if m.contains(x) {
                    let k = choose|k: int| 0 <= k < m.len() && m[k] == x;
                    if k < m0.len() {
                        assert(m0[k] == x);
                    }
                }
                if m0.contains(x) {
                    let k = choose|k: int| 0 <= k < m0.len() && m0[k] == x;
                    assert(m[k] == x);
                }
                if x == s[n - 1] {
                    assert(m[m0.len() as int] == x);
                }
            }
        }
    }
}

/// A UFW plan reconciles: after deleting what it deletes and adding what it
/// adds, the rules on the host are exactly the desired ones; and when the
/// host already holds exactly the desired rules, the plan adds and deletes
/// nothing.
pub proof fn lemma_ufw_plan_reconciles(
    d: Seq<(Seq<char>, Seq<char>, u16)>,
    o: Seq<(Seq<char>, Seq<char>, u16)>,
)
    ensures
        ({
            let add = missing_upto(d, o, d.len() as int);
            let del = missing_upto(o, d, o.len() as int);
            forall|x: (Seq<char>, Seq<char>, u16)|
                ((o.contains(x) && !del.contains(x)) || add.contains(x)) <==> #[trigger] d.contains(
                    x,
                )
        }),
        (forall|x: (Seq<char>, Seq<char>, u16)| #[trigger] d.contains(x) <==> o.contains(x))
            ==> missing_upto(d, o, d.len() as int).len() == 0 && missing_upto(
            o,
            d,
            o.len() as int,
        ).len() == 0,
{
    lemma_missing_upto(d, o, d.len() as int);
    lemma_missing_upto(o, d, o.len() as int);
    assert(d.take(d.len() as int) == d);
    assert(o.take(o.len() as int) == o);
    if forall|x: (Seq<char>, Seq<char>, u16)| #[trigger] d.contains(x) <==> o.contains(x) {
        let add = missing_upto(d, o, d.len() as int);
        let del = missing_upto(o, d, o.len() as int);
        if add.len() > 0 {
            assert(add.contains(add[0]));
        }
        if del.len() > 0 {
            assert(del.contains(del[0]));
        }
    }
}


proof fn lemma_shared_upto(
    s: Seq<(Seq<char>, Seq<char>, u16)>,
    other: Seq<(Seq<char>, Seq<char>, u16)>,
    n: int,
)
    requires
        0 <= n <= s.len(),
    ensures
        shared_upto(s, other, n) == s.take(n).to_set().intersect(other.to_set()).len(),
    decreases n,
{
    broadcast use vstd::seq_lib::seq_to_set_is_finite;

    let cur = s.take(n).to_set().intersect(other.to_set());
    if n == 0 {
        assert(cur =~= Set::empty());
    } else {
        lemma_shared_upto(s, other, n - 1);
        let x = s[n - 1];
        let prev = s.take(n - 1).to_set().intersect(other.to_set());
        assert(s.take(n) == s.take(n - 1).push(x));
        assert(s.take(n).to_set() =~= s.take(n - 1).to_set().insert(x)) by {
            assert forall|y| s.take(n).to_set().contains(y) <==> s.take(n - 1).to_set().insert(
                x,
            ).contains(y) by {
                let t1 = s.take(n);
                let t0 = s.take(n - 1);
                if t1.contains(y) {
                    let k = choose|k: int| 0 <= k < t1.len() && t1[k] == y;
                    if k < n - 1 {
                        assert(t0[k] == y);
                    }
                }
                if t0.contains(y) {
                    let k = choose|k: int| 0 <= k < t0.len() && t0[k] == y;
                    assert(t1[k] == y);
                }
                if y == x {
                    assert(s.take(n)[n - 1] == y);
                }
            }
        }
        if other.contains(x) {
            assert(cur =~= prev.insert(x));
            if !s.take(n - 1).contains(x) {
                assert(!prev.contains(x));
            } else {
                assert(prev.contains(x));
                assert(prev.insert(x) =~= prev);
            }
        } else {
            assert(cur =~= prev);
        }
    }
}

/// The number a UFW plan reports as kept is the number of distinct rules
/// that are both desired and already on the host.
pub proof fn lemma_ufw_kept_count(
    d: Seq<(Seq<char>, Seq<char>, u16)>,
    o: Seq<(Seq<char>, Seq<char>, u16)>,
)
    ensures
        shared_upto(d, o, d.len() as int) == d.to_set().intersect(o.to_set()).len(),
{
    lemma_shared_upto(d, o, d.len() as int);
    assert(d.take(d.len() as int) == d);
}


fn contains_rule(v: &Vec<Rule>, x: &Rule, n: usize) -> (b: bool)
    requires
        n <= v.len(),
    ensures
        b == ufw_rule_views(v@).take(n as int).contains(x@),
{
    let ghost vv = ufw_rule_views(v@);
    let mut j: usize = 0;
    while j < n
        invariant
            vv == ufw_rule_views(v@),
            n <= v.len(),
            j <= n,
            forall|q: int| 0 <= q < j ==> (#[trigger] vv[q]) != x@,
        decreases n - j,
    {
        if v[j].same(x) {
            assert(vv.take(n as int)[j as int] == x@);
            return true;
        }
        j = j + 1;
    }
    assert forall|q: int| 0 <= q < n implies vv.take(n as int)[q] != x@ by {
        assert(vv.take(n as int)[q] == vv[q]);
    }
    false
}

/// Plans the change from `observed` to `desired`: add what is missing,
/// delete what is no longer wanted, keep the rest.
pub fn build_plan(desired: Vec<Rule>, observed: Vec<Rule>) -> (p: Plan)
    ensures
        ({
            let d = ufw_rule_views(desired@);
            let o = ufw_rule_views(observed@);
            &&& ufw_rule_views(p.add@) == missing_upto(d, o, d.len() as int)
            &&& ufw_rule_views(p.delete@) == missing_upto(o, d, o.len() as int)
            &&& p.kept == shared_upto(d, o, d.len() as int)
        }),
{
    let ghost d = ufw_rule_views(desired@);
    let ghost o = ufw_rule_views(observed@);
    assert(o.take(observed.len() as int) == o);
    assert(d.take(desired.len() as int) == d);
    let mut add: Vec<Rule> = Vec::new();
    let mut kept: usize = 0;
    let mut i: usize = 0;
    assert(ufw_rule_views(add@) =~= missing_upto(d, o, 0));
    while i < desired.len()
        invariant
            d == ufw_rule_views(desired@),
            o == ufw_rule_views(observed@),
            o.take(observed.len() as int) == o,
            i <= desired.len(),
            ufw_rule_views(add@) == missing_upto(d, o, i as int),
            kept == shared_upto(d, o, i as int),
            kept <= i,
        decreases desired.len() - i,
    {
        let x = &desired[i];
        assert(d[i as int] == x@);
        if contains_rule(&observed, x, observed.len()) {
            if !contains_rule(&desired, x, i) {
                kept = kept + 1;
            }
        } else {
            let c = x.duplicate();
            proof {
                lemma_rule_views_push(add@, c);
            }
            add.push(c);
        }
        i = i + 1;
    }
    let mut delete: Vec<Rule> = Vec::new();
    let mut j: usize = 0;
    assert(ufw_rule_views(delete@) =~= missing_upto(o, d, 0));
    while j < observed.len()
        invariant
            d == ufw_rule_views(desired@),
            o == ufw_rule_views(observed@),
            d.take(desired.len() as int) == d,
            j <= observed.len(),
            ufw_rule_views(delete@) == missing_upto(o, d, j as int),
        decreases observed.len() - j,
    {
        let x = &observed[j];
        assert(o[j as int] == x@);
        if !contains_rule(&desired, x, desired.len()) {
            let c = x.duplicate();
            proof {
                lemma_rule_views_push(delete@, c);
            }
            delete.push(c);
        }
        j = j + 1;
    }
    Plan { add, delete, kept }
}

/// Plans the UFW reconciliation of `cfg` against the rules of ours found on
/// the host: nothing when UFW is not managed.
pub fn apply(cfg: &Config, observed: Vec<Rule>) -> (p: Plan)
    ensures
        !cfg.ufw.manage ==> p.add@.len() == 0 && p.delete@.len() == 0 && p.kept == 0,
        cfg.ufw.manage ==> ({
            let d = spec_desired_rules(*cfg);
            let o = ufw_rule_views(observed@);
            &&& ufw_rule_views(p.add@) == missing_upto(d, o, d.len() as int)
            &&& ufw_rule_views(p.delete@) == missing_upto(o, d, o.len() as int)
            &&& p.kept == shared_upto(d, o, d.len() as int)
        }),
{
    if !cfg.ufw.manage {
        return Plan { add: Vec::new(), delete: Vec::new(), kept: 0 };
    }
    build_plan(desired_rules(cfg), observed)
}

/// The counts a UFW apply reports.
pub fn report(p: &Plan) -> (r: ApplyReport)
    ensures
        r.added == p.add@.len(),
        r.deleted == p.delete@.len(),
        r.kept == p.kept,
{
    ApplyReport { added: p.add.len(), deleted: p.delete.len(), kept: p.kept }
}

pub open spec fn arg_views(v: Seq<String>) -> Seq<Seq<char>> {
    Seq::new(v.len(), |i: int| v[i]@)
}

/// The `ufw` arguments that add rule `r` (or, when `delete`, remove it),
/// without asking for confirmation.
pub open spec fn route_args_text(r: (Seq<char>, Seq<char>, u16), delete: bool) -> Seq<Seq<char>> {
    seq!["--force"@, "route"@] + if delete {
        seq!["delete"@]
    } else {
        Seq::<Seq<char>>::empty()
    } + rule_args(r)
}

/// The `ufw` arguments that add `rule` (or, when `delete`, remove it).
pub fn route_args(rule: &Rule, delete: bool) -> (v: Vec<String>)
    ensures
        arg_views(v@) == route_args_text(rule@, delete),
{
    let mut v: Vec<String> = Vec::new();
    v.push(owned("--force"));
    v.push(owned("route"));
    if delete {
        v.push(owned("delete"));
    }
    let head = v.len();
    let args = rule.args();
    let mut i: usize = 0;
    while i < args.len()
        invariant
            args@.len() == 9,
            forall|q: int| 0 <= q < 9 ==> (#[trigger] args@[q])@ == rule_args(rule@)[q],
            head == if delete {
                3usize
            } else {
                2usize
            },
            v@.len() == head + i,
            i <= 9,
            v@[0]@ == "--force"@,
            v@[1]@ == "route"@,
            delete ==> v@[2]@ == "delete"@,
            forall|q: int| 0 <= q < i ==> (#[trigger] v@[head + q])@ == rule_args(rule@)[q],
        decreases 9 - i,
    {
        v.push(args[i].clone());
        i = i + 1;
    }
    let ghost want = route_args_text(rule@, delete);
    let ghost mid = if delete {
        seq!["delete"@]
    } else {
        Seq::<Seq<char>>::empty()
    };
    assert(want == seq!["--force"@, "route"@] + mid + rule_args(rule@));
    assert(want.len() == v@.len());
    assert forall|q: int| 0 <= q < v@.len() implies #[trigger] arg_views(v@)[q] == want[q] by {
        if q >= head {
            assert(v@[head + (q - head)]@ == rule_args(rule@)[q - head]);
        }
    }
    assert(arg_views(v@) =~= want);
    v
}

/// What a step on `rule` is called in messages: the step, then the command.
pub open spec fn step_text(action: Seq<char>, r: (Seq<char>, Seq<char>, u16)) -> Seq<char> {
    action + " UFW rule "@ + display_text(r)
}

pub fn step_name(action: &str, rule: &Rule) -> (t: String)
    ensures
        t@ == step_text(action@, rule@),
{
    let mut t = owned(action);
    append(&mut t, " UFW rule ");
    append(&mut t, rule.display_command().as_str());
    t
}

/// The message of a failed `ufw` run: the step, then what it printed,
/// trimmed.
pub open spec fn failure_message_text(step: Seq<char>, stdout: Seq<char>, stderr: Seq<char>) -> Seq<char> {
    step + " failed: "@ + trim_ws(stdout) + trim_ws(stderr)
}

pub fn failure_message(step: &str, stdout: &str, stderr: &str) -> (t: String)
    ensures
        t@ == failure_message_text(step@, stdout@, stderr@),
{
    let mut t = owned(step);
    append(&mut t, " failed: ");
    append(&mut t, trim(stdout).as_str());
    append(&mut t, trim(stderr).as_str());
    t
}


/// The fields a `ufw show added` line sets, pair by pair among the first `n`
/// (protocol, target address, port, comment); a later pair overrides an
/// earlier one, and a port that does not parse is unset.
pub open spec fn pair_fields(f: Seq<Seq<char>>, n: int) -> (
    Option<Seq<char>>,
    Option<Seq<char>>,
    Option<u16>,
    Option<Seq<char>>,
)
    decreases n,
{
    if n <= 0 {
        (None, None, None, None)
    } else {
        let (p, t, port, c) = pair_fields(f, n - 1);
        let key = f[3 + 2 * (n - 1)];
        let v = f[4 + 2 * (n - 1)];
        if key == "proto"@ {
            (Some(v), t, port, c)
        } else if key == "to"@ {
            (p, Some(v), port, c)
        } else if key == "port"@ {
            (p, t, spec_parse_u16(v), c)
        } else if key == "comment"@ {
            (p, t, port, Some(trim_quotes(v)))
        } else {
            (p, t, port, c)
        }
    }
}

pub open spec fn known_key(k: Seq<char>) -> bool {
    k == "proto"@ || k == "to"@ || k == "port"@ || k == "comment"@
}

/// The rule of ours a `ufw show added` line adds: `ufw route allow` and four
/// `key value` pairs naming protocol, target, port and a comment that matches
/// the rule; `None` for any other line.
pub open spec fn spec_parse_added_line(l: Seq<char>) -> Option<(Seq<char>, Seq<char>, u16)> {
    let f = words(l);
    if f.len() != 11 || f[0] != "ufw"@ || f[1] != "route"@ || f[2] != "allow"@ {
        None
    } else if exists|k: int| 0 <= k < 4 && !known_key(#[trigger] f[3 + 2 * k]) {
        None
    } else {
        match pair_fields(f, 4) {
            (Some(p), Some(t), Some(port), Some(c)) => if c == rule_comment_text((p, t, port)) {
                Some((p, t, port))
            } else {
                None
            },
            _ => None,
        }
    }
}

/// The comment of rule `r` as `ufw show added` lists it: in single quotes
/// when `quoted`.
pub open spec fn comment_word(r: (Seq<char>, Seq<char>, u16), quoted: bool) -> Seq<char> {
    if quoted {
        "'"@ + rule_comment_text(r) + "'"@
    } else {
        rule_comment_text(r)
    }
}

/// The line `ufw show added` lists for rule `r`.
pub open spec fn listed_text(r: (Seq<char>, Seq<char>, u16), quoted: bool) -> Seq<char> {
    "ufw route allow proto "@ + r.0 + " to "@ + r.1 + " port "@ + dec_text(r.2 as nat)
        + " comment "@ + comment_word(r, quoted)
}

/// The words of a listed rule line.
pub open spec fn listed_words(r: (Seq<char>, Seq<char>, u16), quoted: bool) -> Seq<Seq<char>> {
    seq![
        "ufw"@,
        "route"@,
        "allow"@,
        "proto"@,
        r.0,
        "to"@,
        r.1,
        "port"@,
        dec_text(r.2 as nat),
        "comment"@,
        comment_word(r, quoted),
    ]
}

proof fn lemma_comment_word(r: (Seq<char>, Seq<char>, u16), quoted: bool)
    ensures
        comment_word(r, quoted).len() > 0,
        no_ws(comment_word(r, quoted)),
        trim_quotes(comment_word(r, quoted)) == rule_comment_text(r),
{
    reveal_strlit("'");
    reveal_strlit("NPorter:");
    let c = rule_comment_text(r);
    let v = spec_fnv1a(encode_utf8(r.0 + "|"@ + r.1 + "|"@ + dec_text(r.2 as nat))) as nat;
    let hx = hex_fixed(v, 16);
    lemma_hex_no_ws(v, 16);
    assert(c == "NPorter:"@ + hx);
    let cw = comment_word(r, quoted);
    assert(no_ws(c)) by {
        assert forall|i: int| 0 <= i < c.len() implies !is_ws(#[trigger] c[i]) by {
            if i >= 8 {
                assert(c[i] == hx[i - 8]);
            }
        }
    }
    assert(no_ws(cw)) by {
        assert forall|i: int| 0 <= i < cw.len() implies !is_ws(#[trigger] cw[i]) by {
            if quoted && 0 < i < cw.len() - 1 {
                assert(cw[i] == c[i - 1]);
            }
        }
    }
    assert(c[0] == 'N');
    assert(is_hex_digit(hx[15]));
    assert(c.last() == hx[15]);
    assert(trim_quotes_start(c) == c);
    assert(trim_quotes_end(c) == c);
    if quoted {
        let cq = c + "'"@;
        assert(cw.drop_first() =~= cq);
        assert(cq[0] == 'N');
        assert(trim_quotes_start(cq) == cq);
        assert(cq.drop_last() =~= c);
        assert(trim_quotes_end(cq) == trim_quotes_end(c));
    }
}

proof fn lemma_listed_words(r: (Seq<char>, Seq<char>, u16), quoted: bool)
    requires
        r.0.len() > 0,
        no_ws(r.0),
        r.1.len() > 0,
        no_ws(r.1),
    ensures
        words(listed_text(r, quoted)) == listed_words(r, quoted),
{
    reveal_strlit("ufw route allow proto ");
    reveal_strlit(" to ");
    reveal_strlit(" port ");
    reveal_strlit(" comment ");
    reveal_strlit("ufw");
    reveal_strlit("route");
    reveal_strlit("allow");
    reveal_strlit("proto");
    reveal_strlit("to");
    reveal_strlit("port");
    reveal_strlit("comment");
    lemma_dec_text_value(r.2 as nat);
    lemma_comment_word(r, quoted);
    let n = dec_text(r.2 as nat);
    let cw = comment_word(r, quoted);
    let sp = seq![' '];
    let p1 = "ufw"@ + sp + "route"@;
    let p2 = p1 + sp + "allow"@;
    let p3 = p2 + sp + "proto"@;
    let p4 = p3 + sp + r.0;
    let p5 = p4 + sp + "to"@;
    let p6 = p5 + sp + r.1;
    let p7 = p6 + sp + "port"@;
    let p8 = p7 + sp + n;
    let p9 = p8 + sp + "comment"@;
    let p10 = p9 + sp + cw;
    assert(listed_text(r, quoted) =~= p10);
    lemma_words_one("ufw"@);
    lemma_words_then("ufw"@, "route"@);
    lemma_words_then(p1, "allow"@);
    lemma_words_then(p2, "proto"@);
    lemma_words_then(p3, r.0);
    lemma_words_then(p4, "to"@);
    lemma_words_then(p5, r.1);
    lemma_words_then(p6, "port"@);
    lemma_words_then(p7, n);
    lemma_words_then(p8, "comment"@);
    lemma_words_then(p9, cw);
    assert(words(p10) =~= listed_words(r, quoted));
}

/// A rule NPorter adds is recognised as its own when `ufw show added` lists
/// it, with its comment bare or in single quotes, as long as its protocol
/// and target are nonempty and hold no white space.
pub proof fn lemma_listed_rule_roundtrip(r: (Seq<char>, Seq<char>, u16), quoted: bool)
    requires
        r.0.len() > 0,
        no_ws(r.0),
        r.1.len() > 0,
        no_ws(r.1),
    ensures
        spec_parse_added_line(listed_text(r, quoted)) == Some(r),
{
    reveal_strlit("ufw");
    reveal_strlit("route");
    reveal_strlit("allow");
    reveal_strlit("proto");
    reveal_strlit("to");
    reveal_strlit("port");
    reveal_strlit("comment");
    lemma_listed_words(r, quoted);
    lemma_comment_word(r, quoted);
    lemma_dec_text_value(r.2 as nat);
    let f = listed_words(r, quoted);
    let c = rule_comment_text(r);
    assert forall|k: int| 0 <= k < 4 implies known_key(#[trigger] f[3 + 2 * k]) by {
        if k == 0 {
            assert(f[3] == "proto"@);
        } else if k == 1 {
            assert(f[5] == "to"@);
        } else if k == 2 {
            assert(f[7] == "port"@);
        } else {
            assert(f[9] == "comment"@);
        }
    }
    assert(spec_parse_u16(f[8]) == Some(r.2));
    assert(pair_fields(f, 0) == (None::<Seq<char>>, None::<Seq<char>>, None::<u16>, None::<Seq<char>>));
    assert(pair_fields(f, 1) == (Some(r.0), None::<Seq<char>>, None::<u16>, None::<Seq<char>>));
    assert(f[5] == "to"@ && f[6] == r.1);
    assert("to"@ != "proto"@) by {
        assert("to"@.len() != "proto"@.len());
    }
    assert(pair_fields(f, 2) == (Some(r.0), Some(r.1), None::<u16>, None::<Seq<char>>));
    assert(f[7] == "port"@ && f[8] == dec_text(r.2 as nat));
    assert("port"@ != "proto"@ && "port"@ != "to"@) by {
        assert("port"@.len() != "proto"@.len());
        assert("port"@.len() != "to"@.len());
    }
    assert(pair_fields(f, 3) == (Some(r.0), Some(r.1), Some(r.2), None::<Seq<char>>));
    assert(f[9] == "comment"@ && f[10] == comment_word(r, quoted));
    assert("comment"@ != "proto"@ && "comment"@ != "to"@ && "comment"@ != "port"@) by {
        assert("comment"@.len() != "proto"@.len());
        assert("comment"@.len() != "to"@.len());
        assert("comment"@.len() != "port"@.len());
    }
    assert(pair_fields(f, 4) == (Some(r.0), Some(r.1), Some(r.2), Some(c)));
}


fn chars_is(w: &Vec<char>, lit: &str) -> (b: bool)
    ensures
        b == (w@ == lit@),
{
    let l = chars_of(lit);
    crate::text::chars_eq(w, &l)
}

/// Parses one line of `ufw show added` output into a rule of ours.
pub fn parse_added_line(line: &str) -> (r: Option<Rule>)
    ensures
        match r {
            Some(rule) => spec_parse_added_line(line@) == Some(rule@),
            None => spec_parse_added_line(line@) is None,
        },
{
    let cs = chars_of(line);
    let f = split_words(&cs);
    let ghost fv = views(f@);
    if f.len() != 11 {
        return None;
    }
    assert(fv[0] == f@[0]@ && fv[1] == f@[1]@ && fv[2] == f@[2]@);
    if !chars_is(&f[0], "ufw") || !chars_is(&f[1], "route") || !chars_is(&f[2], "allow") {
        return None;
    }
    let mut protocol: Option<Vec<char>> = None;
    let mut target_ip: Option<Vec<char>> = None;
    let mut target_port: Option<u16> = None;
    let mut comment: Option<Vec<char>> = None;
    let mut k: usize = 0;
    while k < 4
        invariant
            f.len() == 11,
            fv == views(f@),
            fv == words(cs@),
            cs@ == line@,
            k <= 4,
            forall|q: int| 0 <= q < k ==> known_key(#[trigger] fv[3 + 2 * q]),
            pair_fields(fv, k as int) == (
                match protocol {
                    Some(v) => Some(v@),
                    None => None::<Seq<char>>,
                },
                match target_ip {
                    Some(v) => Some(v@),
                    None => None::<Seq<char>>,
                },
                target_port,
                match comment {
                    Some(v) => Some(v@),
                    None => None::<Seq<char>>,
                },
            ),
        decreases 4 - k,
    {
        let key = &f[3 + 2 * k];
        let v = &f[4 + 2 * k];
        assert(fv[3 + 2 * k as int] == key@ && fv[4 + 2 * k as int] == v@);
        if chars_is(key, "proto") {
            protocol = Some(crate::text::skip_chars(v, 0));
        } else if chars_is(key, "to") {
            target_ip = Some(crate::text::skip_chars(v, 0));
        } else if chars_is(key, "port") {
            target_port = parse_u16(v);
        } else if chars_is(key, "comment") {
            comment = Some(trim_quote_chars(v));
        } else {
            assert(!known_key(fv[3 + 2 * k as int]));
            return None;
        }
        assert(v@.skip(0) == v@);
        k = k + 1;
    }
    let rule = match (protocol, target_ip, target_port) {
        (Some(p), Some(t), Some(port)) => Rule {
            protocol: string_of(&p),
            target_ip: string_of(&t),
            target_port: port,
        },
        _ => {
            return None;
        },
    };
    match comment {
        Some(c) => {
            let expected = rule.comment();
            let e = chars_of(expected.as_str());
            if crate::text::chars_eq(&c, &e) {
                Some(rule)
            } else {
                None
            }
        },
        None => None,
    }
}

/// The rules of ours among the first `n` lines, in order.
pub open spec fn parsed_upto(ls: Seq<Seq<char>>, n: int) -> Seq<(Seq<char>, Seq<char>, u16)>
    decreases n,
{
    if n <= 0 {
        Seq::empty()
    } else {
        match spec_parse_added_line(ls[n - 1]) {
            Some(r) => parsed_upto(ls, n - 1).push(r),
            None => parsed_upto(ls, n - 1),
        }
    }
}

/// The rules of ours in the output of `ufw show added`, in order.
pub fn parse_added(output: &str) -> (r: Vec<Rule>)
    ensures
        ufw_rule_views(r@) == parsed_upto(lines(output@), lines(output@).len() as int),
{
    let cs = chars_of(output);
    let ls = split_lines(&cs);
    let ghost lv = views(ls@);
    let mut out: Vec<Rule> = Vec::new();
    let mut i: usize = 0;
    assert(ufw_rule_views(out@) =~= parsed_upto(lv, 0));
    while i < ls.len()
        invariant
            lv == views(ls@),
            lv == lines(output@),
            i <= ls.len(),
            ufw_rule_views(out@) == parsed_upto(lv, i as int),
        decreases ls.len() - i,
    {
        let line = string_of(&ls[i]);
        assert(line@ == lv[i as int]);
        match parse_added_line(line.as_str()) {
            Some(rule) => {
                proof {
                    lemma_rule_views_push(out@, rule);
                }
                out.push(rule);
            },
            None => {},
        }
        i = i + 1;
    }
    out
}

} // verus!
