//! Character classes and small text operations shared by the lexer and the
//! expression grammar. Every operation works on a sequence of `char`s and is
//! specified over `Seq<char>`.
use vstd::prelude::*;
use vstd::string::StrSliceExecFns;

verus! {

/// Unicode `White_Space`, the set `char::is_whitespace` accepts.
pub open spec fn is_ws(c: char) -> bool {
    ||| ('\u{9}' <= c && c <= '\u{d}')
    ||| c == ' '
    ||| c == '\u{85}'
    ||| c == '\u{a0}'
    ||| c == '\u{1680}'
    ||| ('\u{2000}' <= c && c <= '\u{200a}')
    ||| c == '\u{2028}'
    ||| c == '\u{2029}'
    ||| c == '\u{202f}'
    ||| c == '\u{205f}'
    ||| c == '\u{3000}'
}

/// A blank inside a statement: a space or a tab.
pub open spec fn is_blank(c: char) -> bool {
    c == ' ' || c == '\t'
}

pub open spec fn is_alpha(c: char) -> bool {
    ('a' <= c && c <= 'z') || ('A' <= c && c <= 'Z')
}

pub open spec fn is_digit(c: char) -> bool {
    '0' <= c && c <= '9'
}

pub open spec fn is_alnum(c: char) -> bool {
    is_alpha(c) || is_digit(c)
}

/// First character of an identifier.
pub open spec fn is_ident_start(c: char) -> bool {
    is_alpha(c) || c == '_'
}

/// Later characters of an identifier.
pub open spec fn is_ident_continue(c: char) -> bool {
    is_alnum(c) || c == '_' || c == '$'
}

/// ASCII upper case of one character; other characters are kept.
pub open spec fn upper(c: char) -> char {
    if 'a' <= c && c <= 'z' {
        ((c as u32) - 32) as char
    } else {
        c
    }
}

pub open spec fn upper_seq(s: Seq<char>) -> Seq<char> {
    s.map_values(|c: char| upper(c))
}

/// ASCII case-insensitive equality.
pub open spec fn eq_ignore_case(a: Seq<char>, b: Seq<char>) -> bool {
    upper_seq(a) == upper_seq(b)
}

/// Length of the longest prefix of `s` whose characters satisfy `p`.
pub open spec fn prefix_len(s: Seq<char>, p: spec_fn(char) -> bool) -> nat
    decreases s.len(),
{
    if s.len() > 0 && p(s[0]) {
        1 + prefix_len(s.drop_first(), p)
    } else {
        0
    }
}

/// Length of the longest suffix of `s` whose characters satisfy `p`.
pub open spec fn suffix_len(s: Seq<char>, p: spec_fn(char) -> bool) -> nat
    decreases s.len(),
{
    if s.len() > 0 && p(s.last()) {
        1 + suffix_len(s.drop_last(), p)
    } else {
        0
    }
}

pub open spec fn ws_pred() -> spec_fn(char) -> bool {
    |c: char| is_ws(c)
}

pub open spec fn not_ws_pred() -> spec_fn(char) -> bool {
    |c: char| !is_ws(c)
}

pub open spec fn blank_pred() -> spec_fn(char) -> bool {
    |c: char| is_blank(c)
}

pub open spec fn digit_pred() -> spec_fn(char) -> bool {
    |c: char| is_digit(c)
}

pub open spec fn ident_continue_pred() -> spec_fn(char) -> bool {
    |c: char| is_ident_continue(c)
}

pub open spec fn trim_start(s: Seq<char>) -> Seq<char> {
    s.skip(prefix_len(s, ws_pred()) as int)
}

pub open spec fn trim_end(s: Seq<char>) -> Seq<char> {
    s.take(s.len() - suffix_len(s, ws_pred()))
}

pub open spec fn trim(s: Seq<char>) -> Seq<char> {
    trim_end(trim_start(s))
}

/// Index of the first occurrence of `c` in `s`, or `s.len()` if there is none.
pub open spec fn find_char(s: Seq<char>, c: char) -> nat {
    prefix_len(s, ne_pred(c))
}

pub open spec fn ne_pred(c: char) -> spec_fn(char) -> bool {
    |x: char| x != c
}

pub proof fn lemma_prefix_len_bound(s: Seq<char>, p: spec_fn(char) -> bool)
    ensures
        prefix_len(s, p) <= s.len(),
        forall|i: int| 0 <= i < prefix_len(s, p) ==> p(#[trigger] s[i]),
        prefix_len(s, p) < s.len() ==> !p(s[prefix_len(s, p) as int]),
    decreases s.len(),
{
    if s.len() > 0 && p(s[0]) {
        lemma_prefix_len_bound(s.drop_first(), p);
        assert forall|i: int| 0 <= i < prefix_len(s, p) implies p(#[trigger] s[i]) by {
            if i > 0 {
                assert(s[i] == s.drop_first()[i - 1]);
            }
        }
    }
}

pub proof fn lemma_suffix_len_bound(s: Seq<char>, p: spec_fn(char) -> bool)
    ensures
        suffix_len(s, p) <= s.len(),
        forall|i: int| s.len() - suffix_len(s, p) <= i < s.len() ==> p(#[trigger] s[i]),
        suffix_len(s, p) < s.len() ==> !p(s[s.len() - suffix_len(s, p) - 1]),
    decreases s.len(),
{
    if s.len() > 0 && p(s.last()) {
        lemma_suffix_len_bound(s.drop_last(), p);
        assert forall|i: int| s.len() - suffix_len(s, p) <= i < s.len() implies p(
            #[trigger] s[i],
        ) by {
            if i < s.len() - 1 {
                assert(s[i] == s.drop_last()[i]);
            }
        }
    }
}

/// One step of scanning a prefix: the prefix of `s.skip(i)` extends by one
/// exactly when `s[i]` satisfies `p`.
pub proof fn lemma_prefix_len_step(s: Seq<char>, p: spec_fn(char) -> bool, i: int)
    requires
        0 <= i <= s.len(),
    ensures
        i < s.len() && p(s[i]) ==> prefix_len(s.skip(i), p) == 1 + prefix_len(s.skip(i + 1), p),
        (i == s.len() || !p(s[i])) ==> prefix_len(s.skip(i), p) == 0,
{
    if i < s.len() {
        assert(s.skip(i).drop_first() =~= s.skip(i + 1));
        assert(s.skip(i)[0] == s[i]);
    }
}

pub proof fn lemma_suffix_len_step(s: Seq<char>, p: spec_fn(char) -> bool, j: int)
    requires
        0 <= j <= s.len(),
    ensures
        j > 0 && p(s[j - 1]) ==> suffix_len(s.take(j), p) == 1 + suffix_len(s.take(j - 1), p),
        (j == 0 || !p(s[j - 1])) ==> suffix_len(s.take(j), p) == 0,
{
    if j > 0 {
        assert(s.take(j).drop_last() =~= s.take(j - 1));
        assert(s.take(j).last() == s[j - 1]);
    }
}

/// Whether `c` is Unicode white space.
pub fn is_whitespace(c: char) -> (b: bool)
    ensures
        b == is_ws(c),
{
    ('\u{9}' <= c && c <= '\u{d}') || c == ' ' || c == '\u{85}' || c == '\u{a0}' || c == '\u{1680}'
        || ('\u{2000}' <= c && c <= '\u{200a}') || c == '\u{2028}' || c == '\u{2029}' || c
        == '\u{202f}' || c == '\u{205f}' || c == '\u{3000}'
}

pub fn is_blank_char(c: char) -> (b: bool)
    ensures
        b == is_blank(c),
{
    c == ' ' || c == '\t'
}

pub fn is_digit_char(c: char) -> (b: bool)
    ensures
        b == is_digit(c),
{
    '0' <= c && c <= '9'
}

pub fn is_ident_start_char(c: char) -> (b: bool)
    ensures
        b == is_ident_start(c),
{
    ('a' <= c && c <= 'z') || ('A' <= c && c <= 'Z') || c == '_'
}

pub fn is_ident_continue_char(c: char) -> (b: bool)
    ensures
        b == is_ident_continue(c),
{
    ('a' <= c && c <= 'z') || ('A' <= c && c <= 'Z') || ('0' <= c && c <= '9') || c == '_' || c
        == '$'
}

pub fn upper_char(c: char) -> (u: char)
    ensures
        u == upper(c),
{
    if 'a' <= c && c <= 'z' {
        let b: u8 = c as u8;
        let r: u8 = b - 32;
        let u = r as char;
        assert(u == upper(c));
        u
    } else {
        c
    }
}

/// Number of leading white-space characters of `s[from..]`.
pub fn count_leading_ws(s: &[char], from: usize) -> (n: usize)
    requires
        from <= s@.len(),
    ensures
        n == prefix_len(s@.skip(from as int), ws_pred()),
        from + n <= s@.len(),
{
    let mut i = from;
    proof {
        lemma_prefix_len_bound(s@.skip(from as int), ws_pred());
    }
    while i < s.len() && is_whitespace(s[i])
        invariant
            from <= i <= s@.len(),
            prefix_len(s@.skip(from as int), ws_pred()) == (i - from) + prefix_len(
                s@.skip(i as int),
                ws_pred(),
            ),
        decreases s@.len() - i,
    {
        proof {
            lemma_prefix_len_step(s@, ws_pred(), i as int);
        }
        i = i + 1;
    }
    proof {
        lemma_prefix_len_step(s@, ws_pred(), i as int);
    }
    i - from
}

/// Number of leading blanks (spaces and tabs) of `s[from..]`.
pub fn count_blanks(s: &[char], from: usize) -> (n: usize)
    requires
        from <= s@.len(),
    ensures
        n == prefix_len(s@.skip(from as int), blank_pred()),
        from + n <= s@.len(),
{
    let mut i = from;
    while i < s.len() && is_blank_char(s[i])
        invariant
            from <= i <= s@.len(),
            prefix_len(s@.skip(from as int), blank_pred()) == (i - from) + prefix_len(
                s@.skip(i as int),
                blank_pred(),
            ),
        decreases s@.len() - i,
    {
        proof {
            lemma_prefix_len_step(s@, blank_pred(), i as int);
        }
        i = i + 1;
    }
    proof {
        lemma_prefix_len_step(s@, blank_pred(), i as int);
    }
    i - from
}

/// Number of leading digits of `s[from..]`.
pub fn count_digits(s: &[char], from: usize) -> (n: usize)
    requires
        from <= s@.len(),
    ensures
        n == prefix_len(s@.skip(from as int), digit_pred()),
        from + n <= s@.len(),
{
    let mut i = from;
    while i < s.len() && is_digit_char(s[i])
        invariant
            from <= i <= s@.len(),
            prefix_len(s@.skip(from as int), digit_pred()) == (i - from) + prefix_len(
                s@.skip(i as int),
                digit_pred(),
            ),
        decreases s@.len() - i,
    {
        proof {
            lemma_prefix_len_step(s@, digit_pred(), i as int);
        }
        i = i + 1;
    }
    proof {
        lemma_prefix_len_step(s@, digit_pred(), i as int);
    }
    i - from
}

/// Number of leading identifier characters of `s[from..]`.
pub fn count_ident_continue(s: &[char], from: usize) -> (n: usize)
    requires
        from <= s@.len(),
    ensures
        n == prefix_len(s@.skip(from as int), ident_continue_pred()),
        from + n <= s@.len(),
{
    let mut i = from;
    while i < s.len() && is_ident_continue_char(s[i])
        invariant
            from <= i <= s@.len(),
            prefix_len(s@.skip(from as int), ident_continue_pred()) == (i - from) + prefix_len(
                s@.skip(i as int),
                ident_continue_pred(),
            ),
        decreases s@.len() - i,
    {
        proof {
            lemma_prefix_len_step(s@, ident_continue_pred(), i as int);
        }
        i = i + 1;
    }
    proof {
        lemma_prefix_len_step(s@, ident_continue_pred(), i as int);
    }
    i - from
}

/// Index of the first white-space character of `s[from..]`, relative to `from`,
/// or the length of that suffix when there is none.
pub fn count_non_ws(s: &[char], from: usize) -> (n: usize)
    requires
        from <= s@.len(),
    ensures
        n == prefix_len(s@.skip(from as int), not_ws_pred()),
        from + n <= s@.len(),
{
    let mut i = from;
    while i < s.len() && !is_whitespace(s[i])
        invariant
            from <= i <= s@.len(),
            prefix_len(s@.skip(from as int), not_ws_pred()) == (i - from) + prefix_len(
                s@.skip(i as int),
                not_ws_pred(),
            ),
        decreases s@.len() - i,
    {
        proof {
            lemma_prefix_len_step(s@, not_ws_pred(), i as int);
        }
        i = i + 1;
    }
    proof {
        lemma_prefix_len_step(s@, not_ws_pred(), i as int);
    }
    i - from
}

/// Index of the first `c` in `s`, or `s.len()`.
pub fn find_first(s: &[char], c: char) -> (n: usize)
    ensures
        n == find_char(s@, c),
        n <= s@.len(),
{
    let mut i: usize = 0;
    let ghost p = ne_pred(c);
    assert(s@.skip(0) =~= s@);
    while i < s.len() && s[i] != c
        invariant
            i <= s@.len(),
            p == ne_pred(c),
            prefix_len(s@, p) == i + prefix_len(s@.skip(i as int), p),
        decreases s@.len() - i,
    {
        proof {
            lemma_prefix_len_step(s@, p, i as int);
        }
        i = i + 1;
    }
    proof {
        lemma_prefix_len_step(s@, p, i as int);
    }
    i
}

/// Number of trailing white-space characters of `s[..to]`.
pub fn count_trailing_ws(s: &[char], to: usize) -> (n: usize)
    requires
        to <= s@.len(),
    ensures
        n == suffix_len(s@.take(to as int), ws_pred()),
        n <= to,
{
    let mut j = to;
    assert(s@.take(to as int).take(to as int) =~= s@.take(to as int));
    while j > 0 && is_whitespace(s[j - 1])
        invariant
            j <= to <= s@.len(),
            suffix_len(s@.take(to as int), ws_pred()) == (to - j) + suffix_len(
                s@.take(to as int).take(j as int),
                ws_pred(),
            ),
        decreases j,
    {
        proof {
            lemma_suffix_len_step(s@.take(to as int), ws_pred(), j as int);
        }
        j = j - 1;
    }
    proof {
        lemma_suffix_len_step(s@.take(to as int), ws_pred(), j as int);
    }
    to - j
}

/// Copy of `s[from..to]`.
pub fn copy_range(s: &[char], from: usize, to: usize) -> (r: Vec<char>)
    requires
        from <= to <= s@.len(),
    ensures
        r@ == s@.subrange(from as int, to as int),
{
    let mut r: Vec<char> = Vec::new();
    let mut i = from;
    while i < to
        invariant
            from <= i <= to <= s@.len(),
            r@ == s@.subrange(from as int, i as int),
        decreases to - i,
    {
        r.push(s[i]);
        i = i + 1;
        assert(r@ =~= s@.subrange(from as int, i as int));
    }
    r
}

/// The bounds `(a, b)` of `trim(s)` inside `s`.
pub fn trim_bounds(s: &[char]) -> (r: (usize, usize))
    ensures
        r.0 <= r.1 <= s@.len(),
        s@.subrange(r.0 as int, r.1 as int) == trim(s@),
        s@.subrange(r.0 as int, s@.len() as int) == trim_start(s@),
{
    let a = count_leading_ws(s, 0);
    assert(s@.skip(0) =~= s@);
    let b = count_trailing_ws(s, s.len());
    assert(s@.take(s@.len() as int) =~= s@);
    proof {
        lemma_prefix_len_bound(s@, ws_pred());
        lemma_suffix_len_bound(s@, ws_pred());
    }
    let ghost t = trim_start(s@);
    if a == s.len() {
        assert(t =~= Seq::<char>::empty());
        assert(trim(s@) =~= Seq::<char>::empty());
        assert(s@.subrange(a as int, s@.len() as int) =~= t);
        (a, a)
    } else {
        // the last character of s is in t; trailing white space of s equals that of t
        proof {
            lemma_trailing_ws_after_prefix(s@, a as int);
        }
        assert(s@.subrange(a as int, s@.len() as int) =~= t);
        assert(s@.subrange(a as int, (s@.len() - b) as int) =~= trim(s@));
        (a, s.len() - b)
    }
}

proof fn lemma_trailing_ws_after_prefix(s: Seq<char>, a: int)
    requires
        0 <= a < s.len(),
        a == prefix_len(s, ws_pred()),
    ensures
        suffix_len(s.skip(a), ws_pred()) == suffix_len(s, ws_pred()),
        suffix_len(s, ws_pred()) < s.len() - a,
    decreases s.len(),
{
    lemma_prefix_len_bound(s, ws_pred());
    lemma_suffix_len_bound(s, ws_pred());
    lemma_suffix_len_bound(s.skip(a), ws_pred());
    let p = ws_pred();
    if s.len() > 0 && p(s.last()) {
        // s.last() is white space, so a < s.len() - 1
        assert(!p(s[a]));
        assert(a < s.len() - 1);
        assert(s.skip(a).drop_last() =~= s.drop_last().skip(a));
        assert(s.skip(a).last() == s.last());
        lemma_prefix_len_drop_last(s, a);
        lemma_trailing_ws_after_prefix(s.drop_last(), a);
    } else {
        assert(s.skip(a).last() == s.last());
    }
}

proof fn lemma_prefix_len_drop_last(s: Seq<char>, a: int)
    requires
        0 <= a < s.len() - 1,
        a == prefix_len(s, ws_pred()),
    ensures
        a == prefix_len(s.drop_last(), ws_pred()),
    decreases s.len(),
{
    let p = ws_pred();
    if a > 0 {
        assert(p(s[0]));
        assert(s.drop_last().drop_first() =~= s.drop_first().drop_last());
        lemma_prefix_len_drop_last(s.drop_first(), a - 1);
    } else {
        assert(s.drop_last()[0] == s[0]);
    }
}

/// Copy of `trim(s)`.
pub fn trimmed(s: &[char]) -> (r: Vec<char>)
    ensures
        r@ == trim(s@),
{
    let (a, b) = trim_bounds(s);
    copy_range(s, a, b)
}

/// Copy of `trim_start(s)`.
pub fn trimmed_start(s: &[char]) -> (r: Vec<char>)
    ensures
        r@ == trim_start(s@),
{
    let (a, _b) = trim_bounds(s);
    copy_range(s, a, s.len())
}

/// ASCII upper case of a character sequence.
pub fn to_upper(s: &[char]) -> (r: Vec<char>)
    ensures
        r@ == upper_seq(s@),
{
    let mut r: Vec<char> = Vec::new();
    let mut i: usize = 0;
    while i < s.len()
        invariant
            i <= s@.len(),
            r@ == upper_seq(s@.take(i as int)),
        decreases s@.len() - i,
    {
        let u = upper_char(s[i]);
        r.push(u);
        i = i + 1;
        assert(r@ =~= upper_seq(s@.take(i as int)));
    }
    assert(s@.take(s@.len() as int) =~= s@);
    r
}

/// ASCII case-insensitive equality of `s` with `t`.
pub fn equals_ignore_case(s: &[char], t: &[char]) -> (b: bool)
    ensures
        b == eq_ignore_case(s@, t@),
{
    if s.len() != t.len() {
        assert(upper_seq(s@).len() != upper_seq(t@).len());
        return false;
    }
    let mut i: usize = 0;
    while i < s.len()
        invariant
            i <= s@.len() == t@.len(),
            forall|k: int| 0 <= k < i ==> upper(#[trigger] s@[k]) == upper(t@[k]),
        decreases s@.len() - i,
    {
        if upper_char(s[i]) != upper_char(t[i]) {
            assert(upper_seq(s@)[i as int] != upper_seq(t@)[i as int]);
            return false;
        }
        i = i + 1;
    }
    assert(upper_seq(s@) =~= upper_seq(t@));
    true
}

/// Whether two character sequences are equal.
pub fn chars_equal(s: &[char], t: &[char]) -> (b: bool)
    ensures
        b == (s@ == t@),
{
    if s.len() != t.len() {
        return false;
    }
    let mut i: usize = 0;
    while i < s.len()
        invariant
            i <= s@.len() == t@.len(),
            forall|k: int| 0 <= k < i ==> #[trigger] s@[k] == t@[k],
        decreases s@.len() - i,
    {
        if s[i] != t[i] {
            return false;
        }
        i = i + 1;
    }
    assert(s@ =~= t@);
    true
}

/// The characters of `s`.
pub fn chars_of(s: &str) -> (r: Vec<char>)
    ensures
        r@ == s@,
{
    let n = s.unicode_len();
    let mut r: Vec<char> = Vec::new();
    let mut i: usize = 0;
    while i < n
        invariant
            n == s@.len(),
            i <= n,
            r@ == s@.take(i as int),
        decreases n - i,
    {
        r.push(s.get_char(i));
        i = i + 1;
        assert(r@ =~= s@.take(i as int));
    }
    assert(s@.take(n as int) =~= s@);
    r
}

/// Appends `c` to `s` by `String::push`; claimed: the text afterwards is
/// the text before followed by `c`.
#[verifier::external_body]
fn push_char(s: &mut String, c: char)
    ensures
        final(s)@ == old(s)@.push(c),
{
    s.push(c);
}

/// A `String` holding the characters of `v`.
pub fn string_of(v: &[char]) -> (s: String)
    ensures
        s@ == v@,
{
    let mut s = String::new();
    let mut i: usize = 0;
    while i < v.len()
        invariant
            i <= v@.len(),
            s@ == v@.take(i as int),
        decreases v@.len() - i,
    {
        push_char(&mut s, v[i]);
        i = i + 1;
        assert(s@ =~= v@.take(i as int));
    }
    assert(v@.take(v@.len() as int) =~= v@);
    s
}

/// The decimal digit for `d < 10`.
pub open spec fn digit_char(d: nat) -> char {
    if d == 0 {
        '0'
    } else if d == 1 {
        '1'
    } else if d == 2 {
        '2'
    } else if d == 3 {
        '3'
    } else if d == 4 {
        '4'
    } else if d == 5 {
        '5'
    } else if d == 6 {
        '6'
    } else if d == 7 {
        '7'
    } else if d == 8 {
        '8'
    } else {
        '9'
    }
}

/// The decimal representation of `n`, without leading zeros.
pub open spec fn decimal(n: nat) -> Seq<char>
    decreases n,
{
    if n < 10 {
        seq![digit_char(n)]
    } else {
        decimal(n / 10).push(digit_char(n % 10))
    }
}

/// Different numbers have different decimal representations.
pub proof fn lemma_decimal_injective(a: nat, b: nat)
    requires
        decimal(a) == decimal(b),
    ensures
        a == b,
    decreases a,
{
    let da = decimal(a);
    let db = decimal(b);
    assert(da.last() == digit_char(a % 10));
    assert(db.last() == digit_char(b % 10));
    assert(a % 10 == b % 10);
    if a < 10 && b >= 10 {
        lemma_decimal_nonempty((b / 10) as nat);
        assert(db.len() >= 2);
    } else if a >= 10 && b < 10 {
        lemma_decimal_nonempty((a / 10) as nat);
        assert(da.len() >= 2);
    } else if a >= 10 && b >= 10 {
        assert(decimal((a / 10) as nat) =~= da.drop_last());
        assert(decimal((b / 10) as nat) =~= db.drop_last());
        lemma_decimal_injective((a / 10) as nat, (b / 10) as nat);
    }
}

/// Every number has at least one digit.
pub proof fn lemma_decimal_nonempty(n: nat)
    ensures
        decimal(n).len() >= 1,
    decreases n,
{
    if n >= 10 {
        lemma_decimal_nonempty((n / 10) as nat);
    }
}

fn digit_exec(d: u64) -> (c: char)
    requires
        d < 10,
    ensures
        c == digit_char(d as nat),
{
    if d == 0 {
        '0'
    } else if d == 1 {
        '1'
    } else if d == 2 {
        '2'
    } else if d == 3 {
        '3'
    } else if d == 4 {
        '4'
    } else if d == 5 {
        '5'
    } else if d == 6 {
        '6'
    } else if d == 7 {
        '7'
    } else if d == 8 {
        '8'
    } else {
        '9'
    }
}

/// The decimal digits of `n`.
pub fn decimal_chars(n: u64) -> (r: Vec<char>)
    ensures
        r@ == decimal(n as nat),
    decreases n,
{
    if n < 10 {
        let mut r: Vec<char> = Vec::new();
        r.push(digit_exec(n));
        assert(r@ =~= seq![digit_char(n as nat)]);
        r
    } else {
        let mut r = decimal_chars(n / 10);
        r.push(digit_exec(n % 10));
        r
    }
}

/// `prefix` followed by the decimal digits of `n`, as a `String`.
pub fn with_number(prefix: &str, n: u64) -> (s: String)
    ensures
        s@ == prefix@ + decimal(n as nat),
{
    let mut v = chars_of(prefix);
    let mut digits = decimal_chars(n);
    v.append(&mut digits);
    string_of(v.as_slice())
}

/// Lexicographic order on character sequences (the order of `str`'s `<`).
pub open spec fn lex_lt(a: Seq<char>, b: Seq<char>) -> bool
    decreases a.len(),
{
    if a.len() == 0 {
        b.len() > 0
    } else if b.len() == 0 {
        false
    } else if a[0] != b[0] {
        a[0] < b[0]
    } else {
        lex_lt(a.drop_first(), b.drop_first())
    }
}

/// `lex_lt` is a strict total order.
pub proof fn lemma_lex_order(a: Seq<char>, b: Seq<char>, c: Seq<char>)
    ensures
        !lex_lt(a, a),
        lex_lt(a, b) ==> !lex_lt(b, a),
        a != b ==> lex_lt(a, b) || lex_lt(b, a),
        lex_lt(a, b) && lex_lt(b, c) ==> lex_lt(a, c),
    decreases a.len() + b.len() + c.len(),
{
    if a.len() > 0 && b.len() > 0 && c.len() > 0 {
        lemma_lex_order(a.drop_first(), b.drop_first(), c.drop_first());
    } else if a.len() > 0 && b.len() > 0 {
        lemma_lex_order(a.drop_first(), b.drop_first(), c);
    } else if a.len() > 0 {
        lemma_lex_order(a.drop_first(), b, c);
    }
    if a.len() > 0 && b.len() > 0 && a[0] == b[0] && a.drop_first() == b.drop_first() {
        assert(a =~= b) by {
            assert forall|k: int| 0 <= k < a.len() implies a[k] == b[k] by {
                if k > 0 {
                    assert(a[k] == a.drop_first()[k - 1]);
                    assert(b[k] == b.drop_first()[k - 1]);
                }
            }
        }
    }
    if a.len() == 0 && b.len() == 0 {
        assert(a =~= b);
    }
}

/// Whether `a` comes strictly before `b` in lexicographic order.
pub fn chars_less(a: &[char], b: &[char]) -> (r: bool)
    ensures
        r == lex_lt(a@, b@),
{
    let mut i: usize = 0;
    assert(a@.skip(0) =~= a@);
    assert(b@.skip(0) =~= b@);
    while i < a.len() && i < b.len()
        invariant
            i <= a@.len(),
            i <= b@.len(),
            lex_lt(a@, b@) == lex_lt(a@.skip(i as int), b@.skip(i as int)),
        decreases a@.len() - i,
    {
        if a[i] != b[i] {
            return a[i] < b[i];
        }
        assert(a@.skip(i as int).drop_first() =~= a@.skip(i + 1 as int));
        assert(b@.skip(i as int).drop_first() =~= b@.skip(i + 1 as int));
        i = i + 1;
    }
    i >= a.len() && i < b.len()
}

/// Whether `a` and `b` hold the same text.
pub fn same_text(a: &String, b: &str) -> (r: bool)
    ensures
        r == (a@ == b@),
{
    let owned = b.to_owned();
    *a == owned
}

/// ASCII lower case of one character; other characters are kept.
pub open spec fn lower(c: char) -> char {
    if 'A' <= c && c <= 'Z' {
        ((c as u32) + 32) as char
    } else {
        c
    }
}

pub open spec fn lower_seq(s: Seq<char>) -> Seq<char> {
    s.map_values(|c: char| lower(c))
}

pub fn lower_char(c: char) -> (l: char)
    ensures
        l == lower(c),
{
    if 'A' <= c && c <= 'Z' {
        let b: u8 = c as u8;
        let r: u8 = b + 32;
        let l = r as char;
        assert(l == lower(c));
        l
    } else {
        c
    }
}

/// The ASCII lower case of `s`.
pub fn to_lower(s: &[char]) -> (r: Vec<char>)
    ensures
        r@ == lower_seq(s@),
{
    let mut r: Vec<char> = Vec::new();
    let mut i: usize = 0;
    while i < s.len()
        invariant
            i <= s@.len(),
            r@ == lower_seq(s@.take(i as int)),
        decreases s@.len() - i,
    {
        let l = lower_char(s[i]);
        r.push(l);
        i = i + 1;
        assert(r@ =~= lower_seq(s@.take(i as int)));
    }
    assert(s@.take(s@.len() as int) =~= s@);
    r
}

} // verus!
