use vstd::prelude::*;

verus! {

/// `p` is a prefix of `s`.
pub open spec fn has_prefix(s: Seq<char>, p: Seq<char>) -> bool {
    p.len() <= s.len() && s.take(p.len() as int) == p
}

/// The words of `s`: the pieces between single spaces, with empty pieces dropped.
pub open spec fn words(s: Seq<char>) -> Seq<Seq<char>>
    decreases s.len(),
{
    if s.len() == 0 {
        seq![]
    } else {
        let w = words(s.drop_last());
        let c = s.last();
        if c == ' ' {
            w
        } else if s.len() >= 2 && s[s.len() - 2] != ' ' {
            w.update(w.len() - 1, w.last().push(c))
        } else {
            w.push(seq![c])
        }
    }
}

/// Words put back together with one space between neighbours.
pub open spec fn joined_words(ws: Seq<Seq<char>>) -> Seq<char>
    decreases ws.len(),
{
    if ws.len() == 0 {
        seq![]
    } else if ws.len() == 1 {
        ws[0]
    } else {
        joined_words(ws.drop_last()) + seq![' '] + ws.last()
    }
}

/// The words of `s` from index `k` on, joined by single spaces; empty when `s`
/// has no more than `k` words.
pub open spec fn words_from(s: Seq<char>, k: nat) -> Seq<char> {
    if k >= words(s).len() {
        seq![]
    } else {
        joined_words(words(s).skip(k as int))
    }
}

proof fn lemma_words_nonempty(s: Seq<char>)
    requires
        s.len() > 0,
        s.last() != ' ',
    ensures
        words(s).len() > 0,
    decreases s.len(),
{
    if s.len() >= 2 && s[s.len() - 2] != ' ' {
        lemma_words_nonempty(s.drop_last());
    }
}

proof fn lemma_joined_extend(v: Seq<Seq<char>>, c: char)
    requires
        v.len() > 0,
    ensures
        joined_words(v.update(v.len() - 1, v.last().push(c))) == joined_words(v) + seq![c],
{
    let u = v.update(v.len() - 1, v.last().push(c));
    if v.len() == 1 {
        assert(u[0] == v[0].push(c));
        assert(joined_words(v) + seq![c] =~= v[0].push(c));
    } else {
        assert(u.drop_last() =~= v.drop_last());
        assert(joined_words(u) =~= joined_words(v) + seq![c]);
    }
}

/// How the words of `s` from index `k` follow from those of `s` without its last
/// character.
proof fn lemma_words_from_step(s: Seq<char>, k: nat)
    requires
        s.len() > 0,
    ensures
        ({
            let p = s.drop_last();
            let c = s.last();
            let n = words(p).len();
            &&& c == ' ' ==> words(s).len() == n && words_from(s, k) == words_from(p, k)
            &&& c != ' ' && s.len() >= 2 && s[s.len() - 2] != ' ' ==> words(s).len() == n
                && words_from(s, k) == if n > k {
                words_from(p, k) + seq![c]
            } else {
                words_from(p, k)
            }
            &&& c != ' ' && !(s.len() >= 2 && s[s.len() - 2] != ' ') ==> words(s).len() == n + 1
                && words_from(s, k) == if n > k {
                words_from(p, k) + seq![' ', c]
            } else if n == k {
                seq![c]
            } else {
                seq![]
            }
        }),
{
    let p = s.drop_last();
    let c = s.last();
    let w = words(p);
    let n = w.len();
    if c != ' ' && s.len() >= 2 && s[s.len() - 2] != ' ' {
        assert(p.last() == s[s.len() - 2]);
        lemma_words_nonempty(p);
        if n > k {
            let v = w.skip(k as int);
            let u = w.update(n - 1, w.last().push(c));
            assert(u.skip(k as int) =~= v.update(v.len() - 1, v.last().push(c)));
            lemma_joined_extend(v, c);
        }
    } else if c != ' ' {
        let u = w.push(seq![c]);
        if n > k {
            let v = w.skip(k as int);
            assert(u.skip(k as int) =~= v.push(seq![c]));
            assert(v.push(seq![c]).drop_last() =~= v);
            assert(joined_words(v.push(seq![c])) =~= joined_words(v) + seq![' ', c]);
        } else if n == k {
            assert(u.skip(k as int) =~= seq![seq![c]]);
        }
    }
}

pub open spec fn is_digit(c: char) -> bool {
    '0' <= c && c <= '9'
}

pub open spec fn digit_of(c: char) -> int {
    c as int - '0' as int
}

/// A non-empty run of decimal digits.
pub open spec fn all_digits(s: Seq<char>) -> bool {
    s.len() > 0 && forall|i: int| 0 <= i < s.len() ==> is_digit(#[trigger] s[i])
}

/// The number that a run of decimal digits writes.
pub open spec fn digits_value(s: Seq<char>) -> int
    decreases s.len(),
{
    if s.len() == 0 {
        0
    } else {
        digits_value(s.drop_last()) * 10 + digit_of(s.last())
    }
}

/// The integer written as an optional `+` or `-` followed by decimal digits,
/// with nothing before or after.
pub open spec fn integer_value(s: Seq<char>) -> Option<int> {
    if s.len() > 0 && s[0] == '-' && all_digits(s.drop_first()) {
        Some(-digits_value(s.drop_first()))
    } else if s.len() > 0 && s[0] == '+' && all_digits(s.drop_first()) {
        Some(digits_value(s.drop_first()))
    } else if all_digits(s) {
        Some(digits_value(s))
    } else {
        None
    }
}

/// The `i32` that `s` writes, if it writes one in range.
pub open spec fn i32_value(s: Seq<char>) -> Option<i32> {
    match integer_value(s) {
        Some(v) => if i32::MIN <= v <= i32::MAX {
            Some(v as i32)
        } else {
            None
        },
        None => None,
    }
}

/// Position of the first `..` in `s` at or after `k`.
pub open spec fn dotdot_from(s: Seq<char>, k: int) -> Option<int>
    decreases s.len() - k,
{
    if k < 0 || k + 1 >= s.len() {
        None
    } else if s[k] == '.' && s[k + 1] == '.' {
        Some(k)
    } else {
        dotdot_from(s, k + 1)
    }
}

/// The plan `start..end`: `s` split once at its first `..`, both sides integers.
pub open spec fn plan_of(s: Seq<char>) -> Option<(i32, i32)> {
    match dotdot_from(s, 0) {
        Some(i) => match (i32_value(s.take(i)), i32_value(s.skip(i + 2))) {
            (Some(a), Some(b)) => Some((a, b)),
            _ => None,
        },
        None => None,
    }
}

proof fn lemma_digits_value_nonneg(s: Seq<char>)
    requires
        forall|i: int| 0 <= i < s.len() ==> is_digit(#[trigger] s[i]),
    ensures
        digits_value(s) >= 0,
    decreases s.len(),
{
    if s.len() > 0 {
        lemma_digits_value_nonneg(s.drop_last());
        assert(is_digit(s[s.len() - 1]));
    }
}

/// Whether `s` begins with `prefix`.
pub fn starts_with(s: &str, prefix: &str) -> (r: bool)
    ensures
        r == has_prefix(s@, prefix@),
{
    let n = s.unicode_len();
    let m = prefix.unicode_len();
    if m > n {
        return false;
    }
    let mut i: usize = 0;
    while i < m
        invariant
            m <= n,
            n == s@.len(),
            m == prefix@.len(),
            i <= m,
            forall|j: int| 0 <= j < i ==> s@[j] == prefix@[j],
        decreases m - i,
    {
        if s.get_char(i) != prefix.get_char(i) {
            proof {
                assert(s@.take(m as int)[i as int] != prefix@[i as int]);
            }
            return false;
        }
        i = i + 1;
    }
    proof {
        assert(s@.take(m as int) =~= prefix@);
    }
    true
}

/// Whether `a` and `b` hold the same characters.
pub fn same_text(a: &str, b: &str) -> (r: bool)
    ensures
        r == (a@ == b@),
{
    if a.unicode_len() != b.unicode_len() {
        return false;
    }
    let r = starts_with(a, b);
    proof {
        assert(a@ =~= a@.take(b@.len() as int));
    }
    r
}

/// The words of `line` from index `word` on, rejoined with single spaces; empty
/// when there are no more words than that.
pub fn take_line_from_word(line: &str, word: usize) -> (r: String)
    ensures
        r@ == words_from(line@, word as nat),
{
    let n = line.unicode_len();
    let mut out = String::new();
    let mut seen: usize = 0;
    let mut prev_space = true;
    let mut i: usize = 0;
    proof {
        assert(line@.take(0) =~= Seq::<char>::empty());
    }
    while i < n
        invariant
            i <= n,
            n == line@.len(),
            seen == words(line@.take(i as int)).len(),
            seen <= i,
            prev_space == (i == 0 || line@[i - 1] == ' '),
            out@ == words_from(line@.take(i as int), word as nat),
        decreases n - i,
    {
        let c = line.get_char(i);
        let piece = line.substring_char(i, i + 1);
        proof {
            let s = line@.take(i as int + 1);
            assert(s.drop_last() =~= line@.take(i as int));
            assert(piece@ =~= seq![c]);
            if i > 0 {
                assert(s[s.len() - 2] == line@[i - 1]);
            }
            lemma_words_from_step(s, word as nat);
        }
        if c == ' ' {
            prev_space = true;
        } else if prev_space {
            if seen > word {
                proof {
                    reveal_strlit(" ");
                }
                out.append(" ");
            }
            if seen >= word {
                out.append(piece);
            }
            seen = seen + 1;
            prev_space = false;
        } else if seen > word {
            out.append(piece);
        }
        proof {
            assert(out@ =~= words_from(line@.take(i as int + 1), word as nat));
        }
        i = i + 1;
    }
    proof {
        assert(line@.take(n as int) =~= line@);
    }
    out
}

/// Reads an `i32` written in decimal with an optional sign, as `str::parse` does.
pub fn parse_i32(s: &str) -> (r: Option<i32>)
    ensures
        r == i32_value(s@),
{
    let n = s.unicode_len();
    if n == 0 {
        return None;
    }
    let first = s.get_char(0);
    assert(s@[0] == first);
    let negative = first == '-';
    let start: usize = if first == '-' || first == '+' { 1 } else { 0 };
    if start == n {
        return None;
    }
    // Values past this bound are out of range whatever their sign.
    let cap: u64 = 2147483649;
    let mut acc: u64 = 0;
    let mut k: usize = start;
    while k < n
        invariant
            start <= k <= n,
            n == s@.len(),
            s@[0] == first,
            negative == (first == '-'),
            start == (if first == '-' || first == '+' { 1usize } else { 0usize }),
            start < n,
            forall|j: int| start <= j < k ==> is_digit(#[trigger] s@[j]),
            acc <= cap,
            cap == 2147483649,
            acc == (if digits_value(s@.subrange(start as int, k as int)) < cap {
                digits_value(s@.subrange(start as int, k as int))
            } else {
                cap as int
            }),
        decreases n - k,
    {
        let c = s.get_char(k);
        if !('0' <= c && c <= '9') {
            proof {
                let digits = s@.subrange(start as int, n as int);
                assert(!is_digit(digits[k - start]));
                assert(s@.drop_first() =~= s@.subrange(1, n as int));
                if start == 0 {
                    assert(s@ =~= digits);
                    assert(!all_digits(s@));
                    assert(s@[0] != '-' && s@[0] != '+');
                } else {
                    assert(!is_digit(s@[0]));
                    assert(!all_digits(s@));
                }
            }
            return None;
        }
        let d = (c as u32 - '0' as u32) as u64;
        proof {
            let prev = s@.subrange(start as int, k as int);
            let next = s@.subrange(start as int, k as int + 1);
            assert(next.drop_last() =~= prev);
            lemma_digits_value_nonneg(prev);
            let v = digits_value(prev);
            assert(digits_value(next) == v * 10 + d);
            if v >= cap {
                assert(v * 10 + d >= cap) by (nonlinear_arith)
                    requires v >= cap, d >= 0;
            } else {
                assert(acc == v);
            }
        }
        if acc * 10 + d < cap {
            acc = acc * 10 + d;
        } else {
            acc = cap;
        }
        k = k + 1;
    }
    proof {
        let digits = s@.subrange(start as int, n as int);
        assert(all_digits(digits));
        if start == 1 {
            assert(s@.drop_first() =~= digits);
        } else {
            assert(s@ =~= digits);
            assert(s@[0] != '-' && s@[0] != '+');
        }
    }
    if negative {
        if acc <= 2147483648 {
            Some((0 - acc as i64) as i32)
        } else {
            None
        }
    } else if acc <= 2147483647 {
        Some(acc as i32)
    } else {
        None
    }
}

/// Reads a plan line `start..end`; `None` for any other shape.
pub fn parse_test_plan(line: &str) -> (r: Option<(i32, i32)>)
    ensures
        r == plan_of(line@),
{
    let n = line.unicode_len();
    let mut k: usize = 0;
    while k < n && k + 1 < n
        invariant
            n == line@.len(),
            k <= n,
            dotdot_from(line@, 0) == dotdot_from(line@, k as int),
        decreases n - k,
    {
        if line.get_char(k) == '.' && line.get_char(k + 1) == '.' {
            let left = parse_i32(line.substring_char(0, k));
            let right = parse_i32(line.substring_char(k + 2, n));
            proof {
                assert(line@.subrange(0, k as int) =~= line@.take(k as int));
                assert(line@.subrange(k + 2, n as int) =~= line@.skip(k + 2));
            }
            return match (left, right) {
                (Some(a), Some(b)) => Some((a, b)),
                _ => None,
            };
        }
        k = k + 1;
    }
    None
}

proof fn lemma_single_word(w: Seq<char>)
    requires
        w.len() > 0,
        forall|i: int| 0 <= i < w.len() ==> w[i] != ' ',
    ensures
        words(w) == seq![w],
    decreases w.len(),
{
    if w.len() == 1 {
        assert(words(w.drop_last()) =~= Seq::<Seq<char>>::empty());
        assert(seq![w.last()] =~= w);
    } else {
        lemma_single_word(w.drop_last());
        assert(w.drop_last().push(w.last()) =~= w);
        assert(words(w) =~= seq![w]);
    }
}

/// The words on both sides of a space are the words of the whole.
proof fn lemma_words_concat(a: Seq<char>, b: Seq<char>)
    ensures
        words(a + seq![' '] + b) == words(a) + words(b),
    decreases b.len(),
{
    let s = a + seq![' '] + b;
    if b.len() == 0 {
        assert(s.drop_last() =~= a);
        assert(words(a) + words(b) =~= words(a));
    } else {
        lemma_words_concat(a, b.drop_last());
        assert(s.drop_last() =~= a + seq![' '] + b.drop_last());
        let c = b.last();
        let x = words(a);
        let y = words(b.drop_last());
        if c == ' ' {
        } else if b.len() >= 2 && b[b.len() - 2] != ' ' {
            assert(s[s.len() - 2] == b[b.len() - 2]);
            assert(b.drop_last().last() == b[b.len() - 2]);
            lemma_words_nonempty(b.drop_last());
            assert((x + y).update(x.len() + y.len() - 1, (x + y).last().push(c)) =~= x + y.update(
                y.len() - 1,
                y.last().push(c),
            ));
        } else {
            assert(s[s.len() - 2] == ' ');
            assert((x + y).push(seq![c]) =~= x + y.push(seq![c]));
        }
    }
}

/// A passing result line keeps the words after `ok` and its ordinal, rejoined
/// with single spaces.
pub proof fn lemma_pass_text(ordinal: Seq<char>, rest: Seq<char>)
    requires
        ordinal.len() > 0,
        forall|i: int| 0 <= i < ordinal.len() ==> ordinal[i] != ' ',
    ensures
        line_kind("ok "@ + ordinal + " "@ + rest) == LineKind::Pass(joined_words(words(rest))),
{
    reveal_strlit("ok ");
    reveal_strlit(" ");
    reveal_strlit("# ");
    let ok = seq!['o', 'k'];
    let s = "ok "@ + ordinal + " "@ + rest;
    assert(s.take(2)[0] == 'o');
    assert(s.take(3) =~= "ok "@);
    assert(s =~= ok + seq![' '] + (ordinal + seq![' '] + rest));
    lemma_words_concat(ok, ordinal + seq![' '] + rest);
    lemma_words_concat(ordinal, rest);
    lemma_single_word(ok);
    lemma_single_word(ordinal);
    assert(words(s).skip(2) =~= words(rest));
}

/// A failing result line keeps the words after `not ok` and its ordinal,
/// rejoined with single spaces.
pub proof fn lemma_fail_text(ordinal: Seq<char>, rest: Seq<char>)
    requires
        ordinal.len() > 0,
        forall|i: int| 0 <= i < ordinal.len() ==> ordinal[i] != ' ',
    ensures
        line_kind("not ok "@ + ordinal + " "@ + rest) == LineKind::Fail(joined_words(words(rest))),
{
    reveal_strlit("not ok ");
    reveal_strlit("ok ");
    reveal_strlit(" ");
    reveal_strlit("# ");
    let not = seq!['n', 'o', 't'];
    let ok = seq!['o', 'k'];
    let s = "not ok "@ + ordinal + " "@ + rest;
    assert(s.take(2)[0] == 'n');
    assert(s.take(3)[0] == 'n');
    assert(s.take(7) =~= "not ok "@);
    assert(s =~= not + seq![' '] + (ok + seq![' '] + (ordinal + seq![' '] + rest)));
    lemma_words_concat(not, ok + seq![' '] + (ordinal + seq![' '] + rest));
    lemma_words_concat(ok, ordinal + seq![' '] + rest);
    lemma_words_concat(ordinal, rest);
    lemma_single_word(not);
    lemma_single_word(ok);
    lemma_single_word(ordinal);
    assert(words(s).skip(3) =~= words(rest));
}

/// The line that every stream must open with.
pub open spec fn header_text() -> Seq<char> {
    "TAP version 13"@
}

/// How a line after the header reads.
pub ghost enum LineKind {
    TestTitle(Seq<char>),
    Pass(Seq<char>),
    Fail(Seq<char>),
    Plan(i32, i32),
    Other(Seq<char>),
}

/// Title lines are recognised first, then passing and failing results, then plans;
/// anything else is diagnostic text.
pub open spec fn line_kind(s: Seq<char>) -> LineKind {
    if has_prefix(s, "# "@) {
        LineKind::TestTitle(s.skip(2))
    } else if has_prefix(s, "ok "@) {
        LineKind::Pass(words_from(s, 2))
    } else if has_prefix(s, "not ok "@) {
        LineKind::Fail(words_from(s, 3))
    } else {
        match plan_of(s) {
            Some((a, b)) => LineKind::Plan(a, b),
            None => LineKind::Other(s),
        }
    }
}

/// A classified line, carrying the text that the parser keeps of it.
pub enum Line {
    TestTitle(String),
    Pass(String),
    Fail(String),
    Plan(i32, i32),
    Other(String),
}

impl View for Line {
    type V = LineKind;

    open spec fn view(&self) -> LineKind {
        match self {
            Line::TestTitle(t) => LineKind::TestTitle(t@),
            Line::Pass(t) => LineKind::Pass(t@),
            Line::Fail(t) => LineKind::Fail(t@),
            Line::Plan(a, b) => LineKind::Plan(*a, *b),
            Line::Other(t) => LineKind::Other(t@),
        }
    }
}

/// Whether `line` is exactly the protocol header.
pub fn is_header(line: &str) -> (r: bool)
    ensures
        r == (line@ == header_text()),
{
    same_text(line, "TAP version 13")
}

/// Classifies a line that follows the header.
pub fn classify(line: &str) -> (r: Line)
    ensures
        r@ == line_kind(line@),
{
    if starts_with(line, "# ") {
        proof {
            reveal_strlit("# ");
        }
        let n = line.unicode_len();
        let title = line.substring_char(2, n);
        proof {
            assert(title@ =~= line@.skip(2));
        }
        Line::TestTitle(String::from_str(title))
    } else if starts_with(line, "ok ") {
        Line::Pass(take_line_from_word(line, 2))
    } else if starts_with(line, "not ok ") {
        Line::Fail(take_line_from_word(line, 3))
    } else {
        match parse_test_plan(line) {
            Some((a, b)) => Line::Plan(a, b),
            None => Line::Other(String::from_str(line)),
        }
    }
}

} // verus!
