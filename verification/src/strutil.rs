//! Verified character-sequence utilities used across the library:
//! lexicographic comparison, substring search and replacement, prefix
//! handling, line splitting, tilde expansion and decimal formatting.

use vstd::prelude::*;

verus! {

/// Lexicographic "less than or equal" on character sequences, by code point.
pub open spec fn lex_le(a: Seq<char>, b: Seq<char>) -> bool
    decreases a.len(),
{
    if a.len() == 0 {
        true
    } else if b.len() == 0 {
        false
    } else if a[0] != b[0] {
        (a[0] as u32) < (b[0] as u32)
    } else {
        lex_le(a.drop_first(), b.drop_first())
    }
}

/// Dropping an equal prefix of both sequences does not change their order.
proof fn lemma_lex_le_skip(a: Seq<char>, b: Seq<char>, i: int)
    requires
        0 <= i <= a.len(),
        i <= b.len(),
        forall|j: int| 0 <= j < i ==> a[j] == b[j],
    ensures
        lex_le(a, b) == lex_le(a.skip(i), b.skip(i)),
    decreases i,
{
    if i > 0 {
        assert(a.len() > 0 && b.len() > 0);
        assert(a[0] == b[0]);
        lemma_lex_le_skip(a.drop_first(), b.drop_first(), i - 1);
        assert(a.drop_first().skip(i - 1) =~= a.skip(i));
        assert(b.drop_first().skip(i - 1) =~= b.skip(i));
    } else {
        assert(a.skip(0) =~= a);
        assert(b.skip(0) =~= b);
    }
}

/// The lexicographic order is total.
pub proof fn lemma_lex_le_total(a: Seq<char>, b: Seq<char>)
    ensures
        lex_le(a, b) || lex_le(b, a),
    decreases a.len(),
{
    if a.len() > 0 && b.len() > 0 {
        if a[0] == b[0] {
            lemma_lex_le_total(a.drop_first(), b.drop_first());
        } else {
            vstd::utf8::char_u32_cast(a[0], a[0] as u32);
            vstd::utf8::char_u32_cast(b[0], b[0] as u32);
            assert((a[0] as u32) != (b[0] as u32));
        }
    }
}

/// The lexicographic order is transitive.
pub proof fn lemma_lex_le_trans(a: Seq<char>, b: Seq<char>, c: Seq<char>)
    requires
        lex_le(a, b),
        lex_le(b, c),
    ensures
        lex_le(a, c),
    decreases a.len(),
{
    if a.len() > 0 && b.len() > 0 && c.len() > 0 && a[0] == b[0] && b[0] == c[0] {
        lemma_lex_le_trans(a.drop_first(), b.drop_first(), c.drop_first());
    }
}

/// Compares two strings lexicographically by character code point.
pub fn str_le(a: &str, b: &str) -> (r: bool)
    ensures
        r == lex_le(a@, b@),
{
    let a_len = a.unicode_len();
    let b_len = b.unicode_len();
    let mut i: usize = 0;
    loop
        invariant
            i <= a_len,
            i <= b_len,
            a_len == a@.len(),
            b_len == b@.len(),
            forall|j: int| 0 <= j < i ==> a@[j] == b@[j],
        decreases a_len - i,
    {
        proof {
            lemma_lex_le_skip(a@, b@, i as int);
        }
        if i == a_len {
            assert(a@.skip(i as int).len() == 0);
            return true;
        }
        if i == b_len {
            assert(b@.skip(i as int).len() == 0);
            assert(a@.skip(i as int).len() > 0);
            return false;
        }
        let ca = a.get_char(i);
        let cb = b.get_char(i);
        if ca != cb {
            assert(a@.skip(i as int)[0] == ca);
            assert(b@.skip(i as int)[0] == cb);
            return (ca as u32) < (cb as u32);
        }
        i = i + 1;
    }
}

/// The needle `n` occurs in `h` starting at position `i`.
pub open spec fn matches_at(h: Seq<char>, n: Seq<char>, i: int) -> bool {
    0 <= i && i + n.len() <= h.len() && h.subrange(i, i + n.len()) == n
}

/// The needle `n` occurs somewhere in `h`.
pub open spec fn contains_seq(h: Seq<char>, n: Seq<char>) -> bool {
    exists|i: int| matches_at(h, n, i)
}

/// First position at which `n` occurs in `h` (meaningful only when it occurs).
pub open spec fn first_match(h: Seq<char>, n: Seq<char>) -> int {
    choose|i: int| matches_at(h, n, i) && forall|j: int| 0 <= j < i ==> !matches_at(h, n, j)
}

/// Tests whether `n` occurs in `h` at exactly position `i`.
fn matches_at_exec(h: &str, n: &str, i: usize) -> (r: bool)
    requires
        i + n@.len() <= h@.len(),
    ensures
        r == matches_at(h@, n@, i as int),
{
    let h_len = h.unicode_len();
    let n_len = n.unicode_len();
    let mut k: usize = 0;
    while k < n_len
        invariant
            k <= n_len,
            n_len == n@.len(),
            h_len == h@.len(),
            i + n@.len() <= h@.len(),
            forall|j: int| 0 <= j < k ==> h@[i + j] == n@[j],
        decreases n_len - k,
    {
        if h.get_char(i + k) != n.get_char(k) {
            assert(h@.subrange(i as int, i + n@.len())[k as int] != n@[k as int]);
            return false;
        }
        k = k + 1;
    }
    assert(h@.subrange(i as int, i + n@.len()) =~= n@);
    true
}

/// Finds the first occurrence of `n` in `h`.
pub fn find_sub(h: &str, n: &str) -> (r: Option<usize>)
    ensures
        match r {
            Some(i) => matches_at(h@, n@, i as int) && forall|j: int|
                0 <= j < i ==> !matches_at(h@, n@, j),
            None => !contains_seq(h@, n@),
        },
{
    let h_len = h.unicode_len();
    let n_len = n.unicode_len();
    if n_len > h_len {
        assert forall|i: int| !matches_at(h@, n@, i) by {}
        return None;
    }
    let mut i: usize = 0;
    loop
        invariant
            n_len <= h_len,
            h_len == h@.len(),
            n_len == n@.len(),
            i <= h_len - n_len,
            forall|j: int| 0 <= j < i ==> !matches_at(h@, n@, j),
        decreases h_len - n_len - i,
    {
        if matches_at_exec(h, n, i) {
            return Some(i);
        }
        if i == h_len - n_len {
            assert forall|j: int| !matches_at(h@, n@, j) by {
                if matches_at(h@, n@, j) {
                    assert(0 <= j <= h@.len() - n@.len());
                }
            }
            return None;
        }
        i = i + 1;
    }
}

/// Tests whether `n` occurs anywhere in `h`.
pub fn contains_sub(h: &str, n: &str) -> (r: bool)
    ensures
        r == contains_seq(h@, n@),
{
    match find_sub(h, n) {
        Some(_) => true,
        None => false,
    }
}

/// `p` is a prefix of `h`.
pub open spec fn starts_with_seq(h: Seq<char>, p: Seq<char>) -> bool {
    p.len() <= h.len() && h.subrange(0, p.len() as int) == p
}

/// Tests whether `p` is a prefix of `h`.
pub fn starts_with(h: &str, p: &str) -> (r: bool)
    ensures
        r == starts_with_seq(h@, p@),
{
    if p.unicode_len() > h.unicode_len() {
        return false;
    }
    matches_at_exec(h, p, 0)
}

/// Strips prefix `p` from `h`, returning the remainder when `p` is a prefix.
pub fn strip_prefix(h: &str, p: &str) -> (r: Option<String>)
    ensures
        match r {
            Some(rest) => starts_with_seq(h@, p@) && rest@ == h@.skip(p@.len() as int),
            None => !starts_with_seq(h@, p@),
        },
{
    if starts_with(h, p) {
        let rest = h.substring_char(p.unicode_len(), h.unicode_len());
        assert(h@.subrange(p@.len() as int, h@.len() as int) =~= h@.skip(p@.len() as int));
        Some(rest.to_owned())
    } else {
        None
    }
}

/// Tests two string slices for equality of their character sequences.
pub fn str_eq(a: &str, b: &str) -> (r: bool)
    ensures
        r == (a@ == b@),
{
    a.to_owned().eq(&b.to_owned())
}

/// Every occurrence of `n` in `h` replaced by `r`, scanning left to right
/// without re-examining replaced text.
pub open spec fn replace_all(h: Seq<char>, n: Seq<char>, r: Seq<char>) -> Seq<char>
    decreases h.len(),
{
    if n.len() == 0 || h.len() < n.len() {
        h
    } else if h.subrange(0, n.len() as int) == n {
        r + replace_all(h.skip(n.len() as int), n, r)
    } else {
        seq![h[0]] + replace_all(h.drop_first(), n, r)
    }
}

proof fn lemma_replace_all_step(h: Seq<char>, n: Seq<char>, r: Seq<char>, i: int)
    requires
        0 < n.len(),
        0 <= i <= h.len(),
    ensures
        matches_at(h, n, i) && i + n.len() <= h.len() ==> replace_all(h.skip(i), n, r) == r
            + replace_all(h.skip(i + n.len()), n, r),
        !matches_at(h, n, i) && i < h.len() && i + n.len() <= h.len() ==> replace_all(
            h.skip(i),
            n,
            r,
        ) == seq![h[i]] + replace_all(h.skip(i + 1), n, r),
        i + n.len() > h.len() ==> replace_all(h.skip(i), n, r) == h.skip(i),
{
    let t = h.skip(i);
    if i + n.len() <= h.len() {
        assert(t.subrange(0, n.len() as int) =~= h.subrange(i, i + n.len()));
        if matches_at(h, n, i) {
            assert(t.skip(n.len() as int) =~= h.skip(i + n.len()));
        } else if i < h.len() {
            assert(t[0] == h[i]);
            assert(t.drop_first() =~= h.skip(i + 1));
        }
    } else {
        assert(t.len() < n.len());
    }
}

/// Replaces every occurrence of `n` in `h` by `r`, left to right.
pub fn str_replace(h: &str, n: &str, r: &str) -> (res: String)
    ensures
        res@ == replace_all(h@, n@, r@),
{
    let h_len = h.unicode_len();
    let n_len = n.unicode_len();
    if n_len == 0 {
        return h.to_owned();
    }
    let mut out = String::new();
    let mut i: usize = 0;
    proof {
        assert(h@.skip(0) =~= h@);
        assert(out@ + replace_all(h@, n@, r@) =~= replace_all(h@, n@, r@));
    }
    loop
        invariant
            0 < n_len == n@.len(),
            h_len == h@.len(),
            i <= h_len,
            replace_all(h@, n@, r@) == out@ + replace_all(h@.skip(i as int), n@, r@),
        decreases h_len - i,
    {
        proof {
            lemma_replace_all_step(h@, n@, r@, i as int);
        }
        if n_len <= h_len - i {
            if matches_at_exec(h, n, i) {
                out.append(r);
                i = i + n_len;
            } else {
                let c = h.substring_char(i, i + 1);
                assert(c@ =~= seq![h@[i as int]]);
                out.append(c);
                i = i + 1;
            }
        } else {
            let rest = h.substring_char(i, h_len);
            assert(rest@ =~= h@.skip(i as int));
            out.append(rest);
            assert(h@.skip(h_len as int) =~= Seq::<char>::empty());
            return out;
        }
    }
}

/// The lines of `s`, split on newline characters: one line more than
/// there are newlines, in order, none containing a newline.
pub open spec fn lines_of(s: Seq<char>) -> Seq<Seq<char>>
    decreases s.len(),
{
    if s.len() == 0 {
        seq![Seq::empty()]
    } else if s.last() == '\n' {
        lines_of(s.drop_last()).push(Seq::empty())
    } else {
        let r = lines_of(s.drop_last());
        r.update(r.len() - 1, r.last().push(s.last()))
    }
}

proof fn lemma_lines_of_nonempty(s: Seq<char>)
    ensures
        lines_of(s).len() >= 1,
    decreases s.len(),
{
    if s.len() > 0 {
        lemma_lines_of_nonempty(s.drop_last());
    }
}

/// Splits `s` on newline characters: exactly the lines of `s`.
pub fn split_lines(s: &str) -> (r: Vec<String>)
    ensures
        r.deep_view() == lines_of(s@),
        r@.len() >= 1,
{
    let s_len = s.unicode_len();
    let mut out: Vec<String> = Vec::new();
    let mut cur = String::new();
    let mut i: usize = 0;
    proof {
        assert(s@.take(0) =~= Seq::<char>::empty());
        assert(out.deep_view().push(cur@) =~= lines_of(s@.take(0)));
    }
    while i < s_len
        invariant
            i <= s_len,
            s_len == s@.len(),
            out.deep_view().push(cur@) == lines_of(s@.take(i as int)),
        decreases s_len - i,
    {
        let c = s.get_char(i);
        let ghost pre = out.deep_view().push(cur@);
        proof {
            assert(s@.take(i + 1).drop_last() =~= s@.take(i as int));
            assert(s@.take(i + 1).last() == s@[i as int]);
            lemma_lines_of_nonempty(s@.take(i as int));
        }
        if c == '\n' {
            out.push(cur);
            cur = String::new();
            proof {
                assert(out.deep_view() =~= pre);
                assert(out.deep_view().push(cur@) =~= pre.push(Seq::<char>::empty()));
            }
        } else {
            let piece = s.substring_char(i, i + 1);
            assert(piece@ =~= seq![s@[i as int]]);
            cur.append(piece);
            proof {
                assert(cur@ =~= pre.last().push(c));
                assert(out.deep_view().push(cur@) =~= pre.update(
                    pre.len() - 1,
                    pre.last().push(c),
                ));
            }
        }
        i = i + 1;
    }
    proof {
        assert(s@.take(s_len as int) =~= s@);
        lemma_lines_of_nonempty(s@);
    }
    let ghost fin = out.deep_view().push(cur@);
    out.push(cur);
    assert(out.deep_view() =~= fin);
    out
}

/// ASCII whitespace, the characters trimmed from agent output lines.
pub open spec fn is_ws(c: char) -> bool {
    c == ' ' || c == '\t' || c == '\r' || c == '\n'
}

/// Tests whether every character of `s` is ASCII whitespace.
pub fn is_blank(s: &str) -> (r: bool)
    ensures
        r == forall|k: int| 0 <= k < s@.len() ==> is_ws(s@[k]),
{
    let len = s.unicode_len();
    let mut i: usize = 0;
    while i < len
        invariant
            i <= len,
            len == s@.len(),
            forall|k: int| 0 <= k < i ==> is_ws(s@[k]),
        decreases len - i,
    {
        let c = s.get_char(i);
        if !(c == ' ' || c == '\t' || c == '\r' || c == '\n') {
            return false;
        }
        i = i + 1;
    }
    true
}

/// The number of occurrences of `c` in `s`.
pub open spec fn count_char(s: Seq<char>, c: char) -> nat
    decreases s.len(),
{
    if s.len() == 0 {
        0
    } else {
        count_char(s.drop_last(), c) + if s.last() == c {
            1nat
        } else {
            0nat
        }
    }
}

/// Counts the occurrences of `c` in `s`.
pub fn count_char_exec(s: &str, c: char) -> (r: usize)
    ensures
        r == count_char(s@, c),
{
    let len = s.unicode_len();
    let mut i: usize = 0;
    let mut cnt: usize = 0;
    while i < len
        invariant
            i <= len,
            len == s@.len(),
            cnt == count_char(s@.take(i as int), c),
            cnt <= i,
        decreases len - i,
    {
        assert(s@.take(i + 1).drop_last() =~= s@.take(i as int));
        assert(s@.take(i + 1).last() == s@[i as int]);
        if s.get_char(i) == c {
            cnt = cnt + 1;
        }
        i = i + 1;
    }
    assert(s@.take(len as int) =~= s@);
    cnt
}

/// What tilde expansion of `d` against home directory `home` yields:
/// `~` alone becomes `home`, a leading `~/` is replaced by `home` and a
/// path separator, and anything else is unchanged.
pub open spec fn tilde_expanded(d: Seq<char>, home: Seq<char>) -> Seq<char> {
    if d == seq!['~'] {
        home
    } else if starts_with_seq(d, seq!['~', '/']) {
        home + d.skip(1)
    } else {
        d
    }
}

/// Expands a leading tilde in `d` to the home directory.
pub fn expand_tilde(d: &str, home: &str) -> (r: String)
    ensures
        r@ == tilde_expanded(d@, home@),
{
    proof {
        reveal_strlit("~");
        reveal_strlit("~/");
    }
    if d.unicode_len() == 1 && d.get_char(0) == '~' {
        assert(d@ =~= seq!['~']);
        return home.to_owned();
    }
    assert(d@ != seq!['~']);
    if starts_with(d, "~/") {
        assert("~/"@ =~= seq!['~', '/']);
        let rest = d.substring_char(1, d.unicode_len());
        let mut out = home.to_owned();
        out.append(rest);
        assert(rest@ =~= d@.skip(1));
        out
    } else {
        assert("~/"@ =~= seq!['~', '/']);
        d.to_owned()
    }
}

/// The decimal digit character for `d`.
pub open spec fn digit_char(d: int) -> char {
    if d == 0 { '0' }
    else if d == 1 { '1' }
    else if d == 2 { '2' }
    else if d == 3 { '3' }
    else if d == 4 { '4' }
    else if d == 5 { '5' }
    else if d == 6 { '6' }
    else if d == 7 { '7' }
    else if d == 8 { '8' }
    else { '9' }
}

/// The decimal representation of `n`, most significant digit first.
pub open spec fn dec_chars(n: nat) -> Seq<char>
    decreases n,
{
    if n < 10 {
        seq![digit_char(n as int)]
    } else {
        dec_chars(n / 10).push(digit_char((n % 10) as int))
    }
}

fn digit_str(d: u64) -> (r: &'static str)
    requires
        d < 10,
    ensures
        r@ == seq![digit_char(d as int)],
{
    proof {
        reveal_strlit("0");
        reveal_strlit("1");
        reveal_strlit("2");
        reveal_strlit("3");
        reveal_strlit("4");
        reveal_strlit("5");
        reveal_strlit("6");
        reveal_strlit("7");
        reveal_strlit("8");
        reveal_strlit("9");
    }
    let r = if d == 0 { "0" }
    else if d == 1 { "1" }
    else if d == 2 { "2" }
    else if d == 3 { "3" }
    else if d == 4 { "4" }
    else if d == 5 { "5" }
    else if d == 6 { "6" }
    else if d == 7 { "7" }
    else { "9" };
    let r = if d == 8 { "8" } else { r };
    assert(r@ =~= seq![digit_char(d as int)]);
    r
}

/// Every character of a decimal rendering is a digit.
pub proof fn lemma_dec_chars_digits(n: nat)
    ensures
        forall|i: int| 0 <= i < dec_chars(n).len() ==> '0' <= #[trigger] dec_chars(n)[i] <= '9',
    decreases n,
{
    if n >= 10 {
        lemma_dec_chars_digits(n / 10);
        assert forall|i: int| 0 <= i < dec_chars(n).len() implies '0' <= #[trigger] dec_chars(
            n,
        )[i] <= '9' by {
            if i < dec_chars(n).len() - 1 {
                assert(dec_chars(n)[i] == dec_chars(n / 10)[i]);
            } else {
                assert(dec_chars(n)[i] == digit_char((n % 10) as int));
            }
        }
    }
}

/// Ten to the `k`-th power.
pub open spec fn pow10(k: nat) -> nat
    decreases k,
{
    if k == 0 {
        1
    } else {
        10 * pow10((k - 1) as nat)
    }
}

/// A number below ten to the `k` renders in at most `k` digits.
pub proof fn lemma_dec_chars_len(n: nat, k: nat)
    requires
        n < pow10(k),
        k >= 1,
    ensures
        dec_chars(n).len() <= k,
    decreases k,
{
    if n >= 10 {
        assert(pow10(k) == 10 * pow10((k - 1) as nat));
        if k == 1 {
            assert(pow10(0nat) == 1);
            assert(false);
        }
        assert(n / 10 < pow10((k - 1) as nat)) by (nonlinear_arith)
            requires
                n < 10 * pow10((k - 1) as nat),
                pow10((k - 1) as nat) >= 1,
        ;
        lemma_pow10_pos((k - 1) as nat);
        lemma_dec_chars_len(n / 10, (k - 1) as nat);
    }
}

proof fn lemma_pow10_pos(k: nat)
    ensures
        pow10(k) >= 1,
    decreases k,
{
    if k > 0 {
        lemma_pow10_pos((k - 1) as nat);
    }
}

/// Formats `n` in decimal.
pub fn u64_to_dec(n: u64) -> (r: String)
    ensures
        r@ == dec_chars(n as nat),
    decreases n,
{
    if n < 10 {
        digit_str(n).to_owned()
    } else {
        let mut s = u64_to_dec(n / 10);
        s.append(digit_str(n % 10));
        assert(s@ =~= dec_chars((n / 10) as nat).push(digit_char((n % 10) as int)));
        s
    }
}

} // verus!
