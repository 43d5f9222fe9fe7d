//! Character-level helpers shared by the parsers and renderers.

use vstd::prelude::*;

use crate::ip::{dec_value, is_dec};

verus! {

/// Copies the characters of `s` into a vector.
pub fn chars_of(s: &str) -> (r: Vec<char>)
    ensures
        r@ == s@,
{
    let mut r: Vec<char> = Vec::new();
    for c in it: s.chars()
        invariant
            r@ == it.seq().take(it.index() as int),
            it.seq() == s@,
    {
        r.push(c);
    }
    r
}

/// Appends one character to a string (`String::push`).
#[verifier::external_body]
pub(crate) fn push_char(s: &mut String, c: char)
    ensures
        final(s)@ == old(s)@.push(c),
{
    s.push(c);
}

/// A string holding the given characters.
pub fn string_of(cs: &Vec<char>) -> (r: String)
    ensures
        r@ == cs@,
{
    let mut r = String::new();
    let mut i: usize = 0;
    while i < cs.len()
        invariant
            i <= cs.len(),
            r@ == cs@.take(i as int),
        decreases cs.len() - i,
    {
        push_char(&mut r, cs[i]);
        assert(cs@.take(i as int + 1) == cs@.take(i as int).push(cs@[i as int]));
        i = i + 1;
    }
    assert(cs@.take(cs.len() as int) == cs@);
    r
}

/// A fresh string equal to `s`.
pub fn owned(s: &str) -> (r: String)
    ensures
        r@ == s@,
{
    s.to_owned()
}

/// Appends `t` to `s`.
pub fn append(s: &mut String, t: &str)
    ensures
        final(s)@ == old(s)@ + t@,
{
    let cs = chars_of(t);
    let ghost s0 = s@;
    let mut i: usize = 0;
    while i < cs.len()
        invariant
            i <= cs.len(),
            cs@ == t@,
            s@ == s0 + cs@.take(i as int),
        decreases cs.len() - i,
    {
        push_char(s, cs[i]);
        assert(cs@.take(i as int + 1) == cs@.take(i as int).push(cs@[i as int]));
        i = i + 1;
    }
    assert(cs@.take(cs.len() as int) == cs@);
}

/// Whether two character sequences are equal.
pub fn chars_eq(a: &Vec<char>, b: &Vec<char>) -> (r: bool)
    ensures
        r == (a@ == b@),
{
    if a.len() != b.len() {
        return false;
    }
    let mut i: usize = 0;
    while i < a.len()
        invariant
            a.len() == b.len(),
            i <= a.len(),
            forall|j: int| 0 <= j < i ==> a@[j] == b@[j],
        decreases a.len() - i,
    {
        if a[i] != b[i] {
            return false;
        }
        i = i + 1;
    }
    assert(a@ =~= b@);
    true
}

/// Whether two strings hold the same characters.
pub fn str_eq(a: &str, b: &str) -> (r: bool)
    ensures
        r == (a@ == b@),
{
    let x = chars_of(a);
    let y = chars_of(b);
    chars_eq(&x, &y)
}

pub open spec fn is_ascii_alnum(c: char) -> bool {
    ||| ('0' <= c && c <= '9')
    ||| ('a' <= c && c <= 'z')
    ||| ('A' <= c && c <= 'Z')
}

pub fn ascii_alnum(c: char) -> (b: bool)
    ensures
        b == is_ascii_alnum(c),
{
    ('0' <= c && c <= '9') || ('a' <= c && c <= 'z') || ('A' <= c && c <= 'Z')
}

/// ASCII lower-casing of one character (`char::to_ascii_lowercase`).
pub open spec fn lower_char(c: char) -> char {
    if 'A' <= c && c <= 'Z' {
        ((c as u32) + 32) as char
    } else {
        c
    }
}

pub open spec fn ascii_lower(s: Seq<char>) -> Seq<char> {
    Seq::new(s.len(), |i: int| lower_char(s[i]))
}

pub fn to_ascii_lower(s: &str) -> (r: String)
    ensures
        r@ == ascii_lower(s@),
{
    let cs = chars_of(s);
    let mut out: Vec<char> = Vec::new();
    let mut i: usize = 0;
    while i < cs.len()
        invariant
            i <= cs.len(),
            cs@ == s@,
            out@ == ascii_lower(s@).take(i as int),
        decreases cs.len() - i,
    {
        let c = cs[i];
        let l = if 'A' <= c && c <= 'Z' {
            char_from_u32((c as u32) + 32)
        } else {
            c
        };
        out.push(l);
        assert(out@ =~= ascii_lower(s@).take(i as int + 1));
        i = i + 1;
    }
    assert(ascii_lower(s@).take(cs.len() as int) =~= ascii_lower(s@));
    string_of(&out)
}

/// The character with the given scalar value, for values in the ASCII range.
fn char_from_u32(v: u32) -> (c: char)
    requires
        v < 128,
    ensures
        c == v as char,
{
    let b = v as u8;
    b as char
}

/// The `{:?}` rendering of a string (quoted, with escapes).
pub uninterp spec fn spec_debug_text(s: Seq<char>) -> Seq<char>;

/// `format!("{:?}", s)`: the quoted, escaped rendering of `s`.
#[verifier::external_body]
pub(crate) fn debug_text(s: &str) -> (r: String)
    ensures
        r@ == spec_debug_text(s@),
{
    format!("{:?}", s)
}

/// The character of a decimal digit.
pub open spec fn digit_char(d: nat) -> char {
    (('0' as u32) + d) as char
}

/// The decimal rendering of a number, without leading zeros.
pub open spec fn dec_text(n: nat) -> Seq<char>
    decreases n,
{
    if n < 10 {
        seq![digit_char(n)]
    } else {
        dec_text(n / 10).push(digit_char(n % 10))
    }
}

/// `n.to_string()`.
pub fn u64_text(n: u64) -> (r: String)
    ensures
        r@ == dec_text(n as nat),
    decreases n,
{
    if n < 10 {
        let mut s = String::new();
        push_char(&mut s, char_from_u32(('0' as u32) + (n as u32)));
        s
    } else {
        let mut s = u64_text(n / 10);
        push_char(&mut s, char_from_u32(('0' as u32) + ((n % 10) as u32)));
        s
    }
}

/// The lower-case hex digit of `d < 16`.
pub open spec fn hex_char(d: nat) -> char {
    if d < 10 {
        (('0' as u32) + d) as char
    } else {
        (('a' as u32) + (d - 10)) as char
    }
}

/// The last `n` hex digits of `v`, zero-padded (`{:0n$x}` for `v < 16^n`).
pub open spec fn hex_fixed(v: nat, n: nat) -> Seq<char>
    decreases n,
{
    if n == 0 {
        Seq::empty()
    } else {
        hex_fixed(v / 16, (n - 1) as nat).push(hex_char(v % 16))
    }
}

/// A lower-case hex digit.
pub open spec fn is_hex_digit(c: char) -> bool {
    ('0' <= c && c <= '9') || ('a' <= c && c <= 'f')
}

/// Fixed-width hex renderings hold only hex digits (so no white space and
/// no quotes).
pub proof fn lemma_hex_no_ws(v: nat, n: nat)
    ensures
        no_ws(hex_fixed(v, n)),
        hex_fixed(v, n).len() == n,
        forall|i: int| 0 <= i < n ==> is_hex_digit(#[trigger] hex_fixed(v, n)[i]),
    decreases n,
{
    if n > 0 {
        lemma_hex_no_ws(v / 16, (n - 1) as nat);
        let h = hex_fixed(v, n);
        let d = v % 16;
        assert(h == hex_fixed(v / 16, (n - 1) as nat).push(hex_char(d)));
        if d < 10 {
            assert(((('0' as u32) + d) as char) as u32 == ('0' as u32) + d);
        } else {
            assert(((('a' as u32) + (d - 10)) as char) as u32 == ('a' as u32) + (d - 10));
        }
        assert(is_hex_digit(hex_char(d)));
        assert forall|i: int| 0 <= i < h.len() implies !is_ws(#[trigger] h[i]) && is_hex_digit(
            h[i],
        ) by {
            if i == h.len() - 1 {
                assert(h[i] == hex_char(d));
            } else {
                assert(h[i] == hex_fixed(v / 16, (n - 1) as nat)[i]);
            }
        }
    }
}


fn hex_fixed_exec(v: u64, n: u64) -> (r: Vec<char>)
    ensures
        r@ == hex_fixed(v as nat, n as nat),
    decreases n,
{
    if n == 0 {
        Vec::new()
    } else {
        let mut r = hex_fixed_exec(v / 16, n - 1);
        let d = v % 16;
        let c = if d < 10 {
            char_from_u32(('0' as u32) + (d as u32))
        } else {
            char_from_u32(('a' as u32) + ((d - 10) as u32))
        };
        r.push(c);
        r
    }
}

/// `format!("{:016x}", v)`.
pub fn hex16(v: u64) -> (r: String)
    ensures
        r@ == hex_fixed(v as nat, 16),
{
    let cs = hex_fixed_exec(v, 16);
    string_of(&cs)
}

/// Lexicographic order on texts, by code point (the order of `str`).
pub open spec fn lex_lt(a: Seq<char>, b: Seq<char>) -> bool
    decreases a.len(),
{
    if a.len() == 0 {
        b.len() > 0
    } else if b.len() == 0 {
        false
    } else if a[0] != b[0] {
        a[0] < b[0]
    } else {
        lex_lt(a.drop_first(), b.drop_first())
    }
}

pub proof fn lemma_lex_irreflexive(a: Seq<char>)
    ensures
        !lex_lt(a, a),
    decreases a.len(),
{
    if a.len() > 0 {
        lemma_lex_irreflexive(a.drop_first());
    }
}

pub proof fn lemma_lex_total(a: Seq<char>, b: Seq<char>)
    ensures
        a == b || lex_lt(a, b) || lex_lt(b, a),
        !(lex_lt(a, b) && lex_lt(b, a)),
    decreases a.len(),
{
    if a.len() > 0 && b.len() > 0 {
        lemma_lex_total(a.drop_first(), b.drop_first());
        if a[0] == b[0] && a.drop_first() == b.drop_first() {
            assert forall|i: int| 0 <= i < a.len() implies a[i] == b[i] by {
                if i > 0 {
                    assert(a[i] == a.drop_first()[i - 1]);
                    assert(b[i] == b.drop_first()[i - 1]);
                }
            }
            assert(a =~= b);
        }
    } else if a.len() > 0 {
    } else if b.len() > 0 {
    } else {
        assert(a =~= b);
    }
}

pub proof fn lemma_lex_trans(a: Seq<char>, b: Seq<char>, c: Seq<char>)
    requires
        lex_lt(a, b),
        lex_lt(b, c),
    ensures
        lex_lt(a, c),
    decreases a.len(),
{
    if a.len() > 0 && b.len() > 0 && c.len() > 0 {
        if a[0] == b[0] && b[0] == c[0] {
            lemma_lex_trans(a.drop_first(), b.drop_first(), c.drop_first());
        }
    }
}

/// Whether `a` sorts strictly before `b`.
pub fn chars_lt(a: &Vec<char>, b: &Vec<char>) -> (r: bool)
    ensures
        r == lex_lt(a@, b@),
{
    let mut i: usize = 0;
    assert(a@.skip(0) == a@);
    assert(b@.skip(0) == b@);
    while i < a.len() && i < b.len() && a[i] == b[i]
        invariant
            i <= a.len(),
            i <= b.len(),
            lex_lt(a@, b@) == lex_lt(a@.skip(i as int), b@.skip(i as int)),
        decreases a.len() - i,
    {
        assert(a@.skip(i as int).drop_first() == a@.skip(i as int + 1));
        assert(b@.skip(i as int).drop_first() == b@.skip(i as int + 1));
        i = i + 1;
    }
    if i == a.len() {
        i < b.len()
    } else if i == b.len() {
        false
    } else {
        a[i] < b[i]
    }
}

/// Whether string `a` sorts strictly before string `b`.
pub fn str_lt(a: &str, b: &str) -> (r: bool)
    ensures
        r == lex_lt(a@, b@),
{
    let x = chars_of(a);
    let y = chars_of(b);
    chars_lt(&x, &y)
}

/// The fields of `s` between occurrences of `sep` (always at least one field).
pub open spec fn split_on(s: Seq<char>, sep: char) -> Seq<Seq<char>>
    decreases s.len(),
{
    if s.len() == 0 {
        seq![Seq::<char>::empty()]
    } else {
        let f = split_on(s.drop_last(), sep);
        if s.last() == sep {
            f.push(Seq::<char>::empty())
        } else {
            f.update(f.len() - 1, f.last().push(s.last()))
        }
    }
}

pub open spec fn views(v: Seq<Vec<char>>) -> Seq<Seq<char>> {
    Seq::new(v.len(), |i: int| v[i]@)
}

pub proof fn lemma_split_nonempty(s: Seq<char>, sep: char)
    ensures
        split_on(s, sep).len() >= 1,
    decreases s.len(),
{
    if s.len() > 0 {
        lemma_split_nonempty(s.drop_last(), sep);
    }
}

/// Splits `s` at every `sep`.
pub fn split_chars(s: &Vec<char>, sep: char) -> (r: Vec<Vec<char>>)
    ensures
        views(r@) == split_on(s@, sep),
{
    let mut done: Vec<Vec<char>> = Vec::new();
    let mut cur: Vec<char> = Vec::new();
    let mut i: usize = 0;
    while i < s.len()
        invariant
            i <= s.len(),
            views(done@).push(cur@) == split_on(s@.take(i as int), sep),
        decreases s.len() - i,
    {
        let c = s[i];
        proof {
            let t = s@.take(i as int + 1);
            assert(t.drop_last() == s@.take(i as int));
            assert(t.last() == c);
            lemma_split_nonempty(s@.take(i as int), sep);
        }
        if c == sep {
            let ghost old_done = views(done@);
            done.push(cur);
            cur = Vec::new();
            assert(views(done@) == old_done.push(views(done@).last()));
        } else {
            let ghost old_cur = cur@;
            cur.push(c);
        }
        i = i + 1;
    }
    assert(s@.take(s.len() as int) == s@);
    let ghost before = views(done@);
    done.push(cur);
    assert(views(done@) == before.push(views(done@).last()));
    done
}

/// Unicode white space (`char::is_whitespace`).
pub open spec fn is_ws(c: char) -> bool {
    ||| ('\u{9}' <= c && c <= '\u{d}')
    ||| c == ' '
    ||| c == '\u{85}'
    ||| c == '\u{a0}'
    ||| c == '\u{1680}'
    ||| ('\u{2000}' <= c && c <= '\u{200a}')
    ||| c == '\u{2028}'
    ||| c == '\u{2029}'
    ||| c == '\u{202f}'
    ||| c == '\u{205f}'
    ||| c == '\u{3000}'
}

pub fn ws(c: char) -> (b: bool)
    ensures
        b == is_ws(c),
{
    ('\u{9}' <= c && c <= '\u{d}') || c == ' ' || c == '\u{85}' || c == '\u{a0}' || c
        == '\u{1680}' || ('\u{2000}' <= c && c <= '\u{200a}') || c == '\u{2028}' || c == '\u{2029}'
        || c == '\u{202f}' || c == '\u{205f}' || c == '\u{3000}'
}

/// The maximal runs of non-white-space characters of `s`, in order
/// (`str::split_whitespace`).
pub open spec fn words(s: Seq<char>) -> Seq<Seq<char>>
    decreases s.len(),
{
    if s.len() == 0 {
        Seq::empty()
    } else {
        let w = words(s.drop_last());
        let c = s.last();
        if is_ws(c) {
            w
        } else if s.len() >= 2 && !is_ws(s[s.len() - 2]) {
            w.update(w.len() - 1, w.last().push(c))
        } else {
            w.push(seq![c])
        }
    }
}

/// A text with no white space in it.
pub open spec fn no_ws(s: Seq<char>) -> bool {
    forall|i: int| 0 <= i < s.len() ==> !is_ws(#[trigger] s[i])
}

/// A nonempty text without white space is one word.
pub proof fn lemma_words_one(s: Seq<char>)
    requires
        s.len() > 0,
        no_ws(s),
    ensures
        words(s) == seq![s],
    decreases s.len(),
{
    let c = s.last();
    assert(!is_ws(s[s.len() - 1]));
    if s.len() > 1 {
        let init = s.drop_last();
        lemma_words_one(init);
        assert(!is_ws(s[s.len() - 2]));
        assert(init.push(c) =~= s);
        let w = words(init);
        assert(words(s) == w.update(w.len() - 1, w.last().push(c)));
        assert(w.update(w.len() - 1, w.last().push(c)) =~= seq![s]);
    } else {
        assert(s.drop_last() =~= Seq::<char>::empty());
        assert(words(s.drop_last()) == Seq::<Seq<char>>::empty());
        assert(words(s) == words(s.drop_last()).push(seq![c]));
        assert(s =~= seq![c]);
        assert(Seq::<Seq<char>>::empty().push(seq![c]) =~= seq![s]);
    }
}

/// Adding a space and a word without white space adds that word.
pub proof fn lemma_words_then(a: Seq<char>, b: Seq<char>)
    requires
        b.len() > 0,
        no_ws(b),
    ensures
        words(a + seq![' '] + b) == words(a).push(b),
    decreases b.len(),
{
    let s = a + seq![' '] + b;
    let c = b.last();
    assert(!is_ws(b[b.len() - 1]));
    assert(s.last() == c);
    if b.len() == 1 {
        let t = a + seq![' '];
        assert(t.drop_last() =~= a);
        assert(t.last() == ' ');
        assert(words(t) == words(a));
        assert(s.drop_last() =~= t);
        assert(s[s.len() - 2] == ' ');
        assert(b =~= seq![c]);
    } else {
        let b0 = b.drop_last();
        lemma_words_then(a, b0);
        assert(s.drop_last() =~= a + seq![' '] + b0);
        assert(!is_ws(b[b.len() - 2]));
        assert(s[s.len() - 2] == b[b.len() - 2]);
        assert(b0.push(c) =~= b);
        let w = words(a).push(b0);
        assert(w.update(w.len() - 1, w.last().push(c)) =~= words(a).push(b));
    }
}

/// The words of `s`.
pub fn split_words(s: &Vec<char>) -> (r: Vec<Vec<char>>)
    ensures
        views(r@) == words(s@),
{
    let mut done: Vec<Vec<char>> = Vec::new();
    let mut cur: Vec<char> = Vec::new();
    let mut in_word = false;
    let mut i: usize = 0;
    while i < s.len()
        invariant
            i <= s.len(),
            in_word == (i > 0 && !is_ws(s@[i - 1])),
            in_word ==> views(done@).push(cur@) == words(s@.take(i as int)),
            !in_word ==> views(done@) == words(s@.take(i as int)),
        decreases s.len() - i,
    {
        let c = s[i];
        let ghost t = s@.take(i as int + 1);
        assert(t.drop_last() == s@.take(i as int));
        assert(t.last() == c);
        if ws(c) {
            if in_word {
                let ghost before = views(done@);
                done.push(cur);
                cur = Vec::new();
                assert(views(done@) == before.push(views(done@).last()));
            }
            in_word = false;
        } else {
            if in_word {
                assert(t[t.len() - 2] == s@[i - 1]);
                cur.push(c);
            } else {
                cur = Vec::new();
                cur.push(c);
                assert(cur@ == seq![c]);
            }
            in_word = true;
        }
        i = i + 1;
    }
    assert(s@.take(s.len() as int) == s@);
    if in_word {
        let ghost before = views(done@);
        done.push(cur);
        assert(views(done@) == before.push(views(done@).last()));
    }
    done
}

pub open spec fn starts_with(s: Seq<char>, p: Seq<char>) -> bool {
    s.len() >= p.len() && s.take(p.len() as int) == p
}

pub fn has_prefix(s: &Vec<char>, p: &Vec<char>) -> (b: bool)
    ensures
        b == starts_with(s@, p@),
{
    if s.len() < p.len() {
        return false;
    }
    let mut i: usize = 0;
    while i < p.len()
        invariant
            p.len() <= s.len(),
            i <= p.len(),
            forall|j: int| 0 <= j < i ==> s@[j] == p@[j],
        decreases p.len() - i,
    {
        if s[i] != p[i] {
            assert(s@.take(p.len() as int)[i as int] != p@[i as int]);
            return false;
        }
        i = i + 1;
    }
    assert(s@.take(p.len() as int) =~= p@);
    true
}

/// The characters of `s` from index `a` on.
pub fn skip_chars(s: &Vec<char>, a: usize) -> (r: Vec<char>)
    requires
        a <= s.len(),
    ensures
        r@ == s@.skip(a as int),
{
    let mut r: Vec<char> = Vec::new();
    let mut i = a;
    while i < s.len()
        invariant
            a <= i <= s.len(),
            r@ == s@.subrange(a as int, i as int),
        decreases s.len() - i,
    {
        r.push(s[i]);
        i = i + 1;
    }
    r
}

/// A line without the carriage return that ends it, if any.
pub open spec fn strip_cr(l: Seq<char>) -> Seq<char> {
    if l.len() > 0 && l.last() == '\r' {
        l.drop_last()
    } else {
        l
    }
}

/// The lines of `s` (`str::lines`): split at `\n`, each line that ended in
/// `\n` loses one trailing `\r`, and a final empty piece is not a line.
pub open spec fn lines(s: Seq<char>) -> Seq<Seq<char>> {
    let f = split_on(s, '\n');
    let n = if f.last().len() == 0 {
        f.len() - 1
    } else {
        f.len() as int
    };
    Seq::new(n as nat, |i: int| if i < f.len() - 1 { strip_cr(f[i]) } else { f[i] })
}

pub proof fn lemma_views_push(v: Seq<Vec<char>>, x: Vec<char>)
    ensures
        views(v.push(x)) == views(v).push(x@),
{
    assert(views(v.push(x)) =~= views(v).push(x@));
}

/// The lines of `s`.
pub fn split_lines(s: &Vec<char>) -> (r: Vec<Vec<char>>)
    ensures
        views(r@) == lines(s@),
{
    let f = split_chars(s, '\n');
    proof {
        lemma_split_nonempty(s@, '\n');
    }
    let ghost fv = views(f@);
    let n = if f[f.len() - 1].len() == 0 {
        f.len() - 1
    } else {
        f.len()
    };
    let mut out: Vec<Vec<char>> = Vec::new();
    let mut i: usize = 0;
    while i < n
        invariant
            fv == views(f@),
            fv == split_on(s@, '\n'),
            fv.len() >= 1,
            n <= f.len(),
            n == (if fv.last().len() == 0 { fv.len() - 1 } else { fv.len() as int }),
            i <= n,
            views(out@) == lines(s@).take(i as int),
        decreases n - i,
    {
        let piece = &f[i];
        assert(fv[i as int] == piece@);
        let line = if i + 1 < f.len() && piece.len() > 0 && piece[piece.len() - 1] == '\r' {
            let l = crate::ip::prefix_chars(piece, piece.len() - 1);
            assert(l@ == piece@.drop_last());
            l
        } else {
            let l = crate::ip::prefix_chars(piece, piece.len());
            assert(l@ == piece@);
            l
        };
        proof {
            lemma_views_push(out@, line);
            assert(line@ == lines(s@)[i as int]);
            assert(lines(s@).take(i as int + 1) == lines(s@).take(i as int).push(lines(s@)[i as int]));
        }
        out.push(line);
        i = i + 1;
    }
    assert(lines(s@).take(n as int) =~= lines(s@));
    out
}

/// A text with every leading `'` or `"` removed.
pub open spec fn trim_quotes_start(s: Seq<char>) -> Seq<char>
    decreases s.len(),
{
    if s.len() > 0 && (s[0] == '\'' || s[0] == '"') {
        trim_quotes_start(s.drop_first())
    } else {
        s
    }
}

/// A text with every trailing `'` or `"` removed.
pub open spec fn trim_quotes_end(s: Seq<char>) -> Seq<char>
    decreases s.len(),
{
    if s.len() > 0 && (s.last() == '\'' || s.last() == '"') {
        trim_quotes_end(s.drop_last())
    } else {
        s
    }
}

/// `trim_matches(['\'', '"'])`.
pub open spec fn trim_quotes(s: Seq<char>) -> Seq<char> {
    trim_quotes_end(trim_quotes_start(s))
}

pub fn trim_quote_chars(s: &Vec<char>) -> (r: Vec<char>)
    ensures
        r@ == trim_quotes(s@),
{
    let mut a: usize = 0;
    assert(s@.skip(0) == s@);
    while a < s.len() && (s[a] == '\'' || s[a] == '"')
        invariant
            a <= s.len(),
            trim_quotes_start(s@) == trim_quotes_start(s@.skip(a as int)),
        decreases s.len() - a,
    {
        assert(s@.skip(a as int).drop_first() == s@.skip(a as int + 1));
        a = a + 1;
    }
    assert(trim_quotes_start(s@) == s@.skip(a as int));
    let mut b: usize = s.len();
    while b > a && (s[b - 1] == '\'' || s[b - 1] == '"')
        invariant
            a <= b <= s.len(),
            trim_quotes(s@) == trim_quotes_end(s@.subrange(a as int, b as int)),
        decreases b - a,
    {
        assert(s@.subrange(a as int, b as int).drop_last() == s@.subrange(a as int, b as int - 1));
        b = b - 1;
    }
    let r = crate::ip::sub_chars(s, a, b);
    r
}

/// A text with its leading white space removed.
pub open spec fn trim_ws_start(s: Seq<char>) -> Seq<char>
    decreases s.len(),
{
    if s.len() > 0 && is_ws(s[0]) {
        trim_ws_start(s.drop_first())
    } else {
        s
    }
}

/// A text with its trailing white space removed.
pub open spec fn trim_ws_end(s: Seq<char>) -> Seq<char>
    decreases s.len(),
{
    if s.len() > 0 && is_ws(s.last()) {
        trim_ws_end(s.drop_last())
    } else {
        s
    }
}

/// `str::trim`: white space removed from both ends.
pub open spec fn trim_ws(s: Seq<char>) -> Seq<char> {
    trim_ws_end(trim_ws_start(s))
}

/// `s.trim().to_string()`.
pub fn trim(s: &str) -> (r: String)
    ensures
        r@ == trim_ws(s@),
{
    let cs = chars_of(s);
    let mut a: usize = 0;
    assert(cs@.skip(0) == cs@);
    while a < cs.len() && ws(cs[a])
        invariant
            a <= cs.len(),
            trim_ws_start(cs@) == trim_ws_start(cs@.skip(a as int)),
        decreases cs.len() - a,
    {
        assert(cs@.skip(a as int).drop_first() == cs@.skip(a as int + 1));
        a = a + 1;
    }
    assert(trim_ws_start(cs@) == cs@.skip(a as int));
    let mut b: usize = cs.len();
    while b > a && ws(cs[b - 1])
        invariant
            a <= b <= cs.len(),
            trim_ws(cs@) == trim_ws_end(cs@.subrange(a as int, b as int)),
        decreases b - a,
    {
        assert(cs@.subrange(a as int, b as int).drop_last() == cs@.subrange(a as int, b as int - 1));
        b = b - 1;
    }
    let r = crate::ip::sub_chars(&cs, a, b);
    string_of(&r)
}

/// `"true"` or `"false"` (`bool::to_string`).
pub open spec fn bool_text(b: bool) -> Seq<char> {
    if b {
        "true"@
    } else {
        "false"@
    }
}

pub fn bool_string(b: bool) -> (r: String)
    ensures
        r@ == bool_text(b),
{
    if b {
        owned("true")
    } else {
        owned("false")
    }
}

/// What `bool::from_str` gives: exactly `true` or `false`.
pub open spec fn spec_parse_bool(s: Seq<char>) -> Option<bool> {
    if s == "true"@ {
        Some(true)
    } else if s == "false"@ {
        Some(false)
    } else {
        None
    }
}

pub fn parse_bool(s: &str) -> (r: Option<bool>)
    ensures
        r == spec_parse_bool(s@),
{
    if str_eq(s, "true") {
        Some(true)
    } else if str_eq(s, "false") {
        Some(false)
    } else {
        None
    }
}

/// Removes the last character of a string (`String::pop`).
#[verifier::external_body]
pub(crate) fn pop_char(s: &mut String)
    ensures
        old(s)@.len() > 0 ==> final(s)@ == old(s)@.drop_last(),
        old(s)@.len() == 0 ==> final(s)@ == old(s)@,
{
    s.pop();
}

pub open spec fn all_dec(t: Seq<char>) -> bool {
    forall|i: int| 0 <= i < t.len() ==> is_dec(#[trigger] t[i])
}

/// What `u16::from_str` gives: an optional `+`, then one or more decimal
/// digits whose value fits in 16 bits.
pub open spec fn spec_parse_u16(s: Seq<char>) -> Option<u16> {
    let t = if s.len() > 0 && s[0] == '+' {
        s.drop_first()
    } else {
        s
    };
    if t.len() > 0 && all_dec(t) && dec_value(t) <= 65535 {
        Some(dec_value(t) as u16)
    } else {
        None
    }
}

/// The decimal rendering of a number reads back as that number.
pub proof fn lemma_dec_text_value(n: nat)
    ensures
        dec_text(n).len() > 0,
        all_dec(dec_text(n)),
        dec_value(dec_text(n)) == n,
        no_ws(dec_text(n)),
        dec_text(n)[0] != '+',
    decreases n,
{
    let d = n % 10;
    assert(((('0' as u32) + d) as char) as u32 == ('0' as u32) + d);
    if n < 10 {
        let t = dec_text(n);
        assert(t == seq![digit_char(n)]);
        assert(t.drop_last() =~= Seq::<char>::empty());
        assert(is_dec(t[0]));
        assert(dec_value(t) == dec_value(t.drop_last()) * 10 + ((t.last() as u32) - ('0' as u32)) as nat);
        assert(n % 10 == n);
    } else {
        lemma_dec_text_value(n / 10);
        let h = dec_text(n / 10);
        let t = dec_text(n);
        assert(t == h.push(digit_char(d)));
        assert(t.drop_last() == h);
        assert(t[0] == h[0]);
        assert(dec_value(t) == dec_value(h) * 10 + ((t.last() as u32) - ('0' as u32)) as nat);
        assert((n / 10) * 10 + n % 10 == n) by (nonlinear_arith);
        assert forall|i: int| 0 <= i < t.len() implies is_dec(#[trigger] t[i]) && !is_ws(t[i]) by {
            if i < h.len() {
                assert(t[i] == h[i]);
                assert(is_dec(h[i]));
            }
        }
    }
}


proof fn lemma_dec_value_grows(t: Seq<char>, i: int)
    requires
        0 <= i <= t.len(),
        forall|k: int| 0 <= k < t.len() ==> is_dec(#[trigger] t[k]),
    ensures
        dec_value(t.take(i)) <= dec_value(t),
    decreases t.len() - i,
{
    if i < t.len() {
        lemma_dec_value_grows(t, i + 1);
        assert(t.take(i + 1).drop_last() == t.take(i));
    } else {
        assert(t.take(i) == t);
    }
}

/// Parses a port number as `u16::from_str` does.
#[verifier::loop_isolation(false)]
pub fn parse_u16(s: &Vec<char>) -> (r: Option<u16>)
    ensures
        r == spec_parse_u16(s@),
{
    let t = if s.len() > 0 && s[0] == '+' {
        let t = skip_chars(s, 1);
        assert(t@ == s@.drop_first());
        t
    } else {
        let t = skip_chars(s, 0);
        assert(t@ == s@);
        t
    };
    if t.len() == 0 {
        return None;
    }
    let mut i: usize = 0;
    while i < t.len()
        invariant
            i <= t.len(),
            forall|k: int| 0 <= k < i ==> is_dec(#[trigger] t@[k]),
        decreases t.len() - i,
    {
        if !('0' <= t[i] && t[i] <= '9') {
            assert(!is_dec(t@[i as int]));
            assert(!all_dec(t@));
            return None;
        }
        i = i + 1;
    }
    let mut v: u32 = 0;
    let mut j: usize = 0;
    while j < t.len()
        invariant
            j <= t.len(),
            forall|k: int| 0 <= k < t.len() ==> is_dec(#[trigger] t@[k]),
            v == dec_value(t@.take(j as int)),
            v <= 65535,
        decreases t.len() - j,
    {
        assert(t@.take(j as int + 1).drop_last() == t@.take(j as int));
        let d = (t[j] as u32) - ('0' as u32);
        let next = v * 10 + d;
        if next > 65535 {
            proof {
                assert(next == dec_value(t@.take(j as int + 1)));
                lemma_dec_value_grows(t@, j as int + 1);
            }
            return None;
        }
        v = next;
        j = j + 1;
    }
    assert(t@.take(t.len() as int) == t@);
    Some(v as u16)
}

} // verus!
