//! Character-level groundwork for the corpus: whitespace tokenization,
//! ANSI style-code stripping, and decimal process identifiers.

use vstd::prelude::*;

verus! {

/// Characters the corpus treats as whitespace separators.
pub open spec fn is_space(c: char) -> bool {
    c == ' ' || c == '\t' || c == '\n' || c == '\r'
}

/// A run of `k` plain space characters.
pub open spec fn space_run(k: nat) -> Seq<char> {
    Seq::new(k, |i: int| ' ')
}

pub open spec fn all_spaces(s: Seq<char>) -> bool {
    forall|i: int| 0 <= i < s.len() ==> is_space(#[trigger] s[i])
}

pub open spec fn no_spaces(s: Seq<char>) -> bool {
    forall|i: int| 0 <= i < s.len() ==> !is_space(#[trigger] s[i])
}

pub open spec fn esc_free(s: Seq<char>) -> bool {
    forall|i: int| 0 <= i < s.len() ==> #[trigger] s[i] != '\u{1b}'
}

/// The token still being accumulated, as the tokens it contributes.
pub open spec fn pending(cur: Seq<char>) -> Seq<Seq<char>> {
    if cur.len() == 0 {
        Seq::empty()
    } else {
        seq![cur]
    }
}

/// Whitespace tokenization, carrying the token in progress.
pub open spec fn tokens_from(s: Seq<char>, cur: Seq<char>) -> Seq<Seq<char>>
    decreases s.len(),
{
    if s.len() == 0 {
        pending(cur)
    } else if is_space(s[0]) {
        pending(cur) + tokens_from(s.drop_first(), Seq::empty())
    } else {
        tokens_from(s.drop_first(), cur.push(s[0]))
    }
}

/// The whitespace-separated tokens of `s`, in order.
pub open spec fn tokens(s: Seq<char>) -> Seq<Seq<char>> {
    tokens_from(s, Seq::empty())
}

/// Tokenization splits cleanly at a boundary whose right side starts with
/// whitespace (or is empty).
pub proof fn lemma_tokens_split_right(a: Seq<char>, b: Seq<char>, cur: Seq<char>)
    requires
        b.len() == 0 || is_space(b[0]),
    ensures
        tokens_from(a + b, cur) == tokens_from(a, cur) + tokens_from(b, Seq::empty()),
    decreases a.len(),
{
    if a.len() == 0 {
        assert(a + b =~= b);
        if b.len() == 0 {
            assert(tokens_from(b, cur) =~~= tokens_from(a, cur) + tokens_from(b, Seq::empty()));
        } else {
            assert(tokens_from(b, cur) == pending(cur) + tokens_from(b.drop_first(), Seq::empty()));
            assert(tokens_from(b, Seq::empty()) == pending(Seq::<char>::empty()) + tokens_from(
                b.drop_first(),
                Seq::empty(),
            ));
            assert(tokens_from(a, cur) == pending(cur));
            assert(tokens_from(b, cur) =~~= tokens_from(a, cur) + tokens_from(b, Seq::empty()));
        }
    } else {
        assert((a + b).len() > 0);
        assert((a + b)[0] == a[0]);
        assert((a + b).drop_first() =~= a.drop_first() + b);
        if is_space(a[0]) {
            lemma_tokens_split_right(a.drop_first(), b, Seq::empty());
            assert(tokens_from(a + b, cur) =~~= tokens_from(a, cur) + tokens_from(
                b,
                Seq::empty(),
            ));
        } else {
            lemma_tokens_split_right(a.drop_first(), b, cur.push(a[0]));
        }
    }
}

/// Tokenization splits cleanly after a left side that ends with whitespace.
pub proof fn lemma_tokens_split_left(a: Seq<char>, b: Seq<char>, cur: Seq<char>)
    requires
        a.len() > 0,
        is_space(a.last()),
    ensures
        tokens_from(a + b, cur) == tokens_from(a, cur) + tokens_from(b, Seq::empty()),
    decreases a.len(),
{
    assert((a + b)[0] == a[0]);
    assert((a + b).drop_first() =~= a.drop_first() + b);
    if a.len() == 1 {
        assert(is_space(a[0]));
        assert(a.drop_first() =~= Seq::<char>::empty());
        assert(a.drop_first() + b =~= b);
        assert(tokens_from(Seq::<char>::empty(), Seq::<char>::empty()) =~~= Seq::<Seq<
            char,
        >>::empty());
        assert(tokens_from(a, cur) =~~= pending(cur));
        assert(tokens_from(a + b, cur) =~~= tokens_from(a, cur) + tokens_from(b, Seq::empty()));
    } else if is_space(a[0]) {
        assert(a.drop_first().last() == a.last());
        lemma_tokens_split_left(a.drop_first(), b, Seq::empty());
        assert(tokens_from(a + b, cur) =~~= tokens_from(a, cur) + tokens_from(b, Seq::empty()));
    } else {
        assert(a.drop_first().last() == a.last());
        lemma_tokens_split_left(a.drop_first(), b, cur.push(a[0]));
    }
}

/// A whitespace-free stretch only grows the token in progress.
pub proof fn lemma_tokens_nonspace(t: Seq<char>, b: Seq<char>, cur: Seq<char>)
    requires
        no_spaces(t),
    ensures
        tokens_from(t + b, cur) == tokens_from(b, cur + t),
    decreases t.len(),
{
    if t.len() == 0 {
        assert(t + b =~= b);
        assert(cur + t =~= cur);
    } else {
        assert((t + b)[0] == t[0]);
        assert((t + b).drop_first() =~= t.drop_first() + b);
        lemma_tokens_nonspace(t.drop_first(), b, cur.push(t[0]));
        assert(cur.push(t[0]) + t.drop_first() =~= cur + t);
    }
}

/// A whitespace run contributes no token beyond the pending one.
pub proof fn lemma_tokens_all_spaces(t: Seq<char>, cur: Seq<char>)
    requires
        all_spaces(t),
    ensures
        tokens_from(t, cur) == pending(cur),
    decreases t.len(),
{
    if t.len() == 0 {
    } else {
        assert(all_spaces(t.drop_first()));
        lemma_tokens_all_spaces(t.drop_first(), Seq::empty());
        assert(tokens_from(t, cur) =~~= pending(cur));
    }
}

/// Leading whitespace never changes the tokens.
pub proof fn lemma_tokens_space_prefix(t: Seq<char>, b: Seq<char>)
    requires
        all_spaces(t),
    ensures
        tokens_from(t + b, Seq::empty()) == tokens_from(b, Seq::empty()),
    decreases t.len(),
{
    if t.len() == 0 {
        assert(t + b =~= b);
    } else {
        assert((t + b)[0] == t[0]);
        assert((t + b).drop_first() =~= t.drop_first() + b);
        assert(all_spaces(t.drop_first()));
        lemma_tokens_space_prefix(t.drop_first(), b);
        assert(tokens_from(t + b, Seq::empty()) =~~= tokens_from(b, Seq::empty()));
    }
}

/// A nonempty pending token always surfaces.
pub proof fn lemma_tokens_pending_nonempty(s: Seq<char>, cur: Seq<char>)
    requires
        cur.len() > 0,
    ensures
        tokens_from(s, cur).len() >= 1,
    decreases s.len(),
{
    if s.len() == 0 {
    } else if is_space(s[0]) {
    } else {
        lemma_tokens_pending_nonempty(s.drop_first(), cur.push(s[0]));
    }
}

/// Text with any non-whitespace character has at least one token.
pub proof fn lemma_tokens_nonempty(s: Seq<char>, cur: Seq<char>)
    requires
        !all_spaces(s),
    ensures
        tokens_from(s, cur).len() >= 1,
    decreases s.len(),
{
    let j = choose|j: int| 0 <= j < s.len() && !is_space(s[j]);
    if is_space(s[0]) {
        assert(s.drop_first()[j - 1] == s[j]);
        assert(!all_spaces(s.drop_first()));
        lemma_tokens_nonempty(s.drop_first(), Seq::empty());
    } else {
        lemma_tokens_pending_nonempty(s.drop_first(), cur.push(s[0]));
    }
}

/// The trailing whitespace-delimited token of `prefix + gap + t` is exactly
/// `t`, however many tokens precede it.
pub proof fn lemma_trailing_token(prefix: Seq<char>, gap: nat, t: Seq<char>)
    requires
        gap > 0,
        t.len() > 0,
        no_spaces(t),
    ensures
        tokens(prefix + space_run(gap) + t) == tokens(prefix).push(t),
        tokens(prefix + space_run(gap) + t).last() == t,
{
    let sp = space_run(gap);
    assert(is_space(sp[0]));
    assert((sp + t)[0] == sp[0]);
    lemma_tokens_split_right(prefix, sp + t, Seq::empty());
    assert(prefix + (sp + t) =~= prefix + space_run(gap) + t);
    lemma_tokens_space_prefix(sp, t);
    lemma_tokens_nonspace(t, Seq::empty(), Seq::empty());
    assert(t + Seq::<char>::empty() =~= t);
    assert(Seq::<char>::empty() + t =~= t);
    assert(tokens_from(Seq::<char>::empty(), t) == pending(t));
    assert(tokens(prefix + space_run(gap) + t) =~~= tokens(prefix).push(t));
}

// --- ANSI style sequences ---

/// `s` with ANSI style sequences removed; an ESC starts a sequence that runs
/// up to and including the next `m`.
pub open spec fn strip_styled(s: Seq<char>, in_esc: bool) -> Seq<char>
    decreases s.len(),
{
    if s.len() == 0 {
        Seq::empty()
    } else if in_esc {
        strip_styled(s.drop_first(), s[0] != 'm')
    } else if s[0] == '\u{1b}' {
        strip_styled(s.drop_first(), true)
    } else {
        seq![s[0]] + strip_styled(s.drop_first(), false)
    }
}

/// The visible text of `s`: everything outside ANSI style sequences.
pub open spec fn strip_codes_spec(s: Seq<char>) -> Seq<char> {
    strip_styled(s, false)
}

/// One complete style sequence: ESC, a body free of `m` and ESC, then `m`.
pub open spec fn is_style_seq(s: Seq<char>) -> bool {
    &&& s.len() >= 2
    &&& s[0] == '\u{1b}'
    &&& s.last() == 'm'
    &&& forall|i: int| 1 <= i < s.len() - 1 ==> #[trigger] s[i] != 'm' && s[i] != '\u{1b}'
}

/// Stripping passes ESC-free text through unchanged.
pub proof fn lemma_strip_plain(p: Seq<char>, rest: Seq<char>)
    requires
        esc_free(p),
    ensures
        strip_styled(p + rest, false) == p + strip_styled(rest, false),
    decreases p.len(),
{
    if p.len() == 0 {
        assert(p + rest =~= rest);
        assert(p + strip_styled(rest, false) =~= strip_styled(rest, false));
    } else {
        assert((p + rest)[0] == p[0]);
        assert((p + rest).drop_first() =~= p.drop_first() + rest);
        assert(esc_free(p.drop_first()));
        lemma_strip_plain(p.drop_first(), rest);
        assert(seq![p[0]] + (p.drop_first() + strip_styled(rest, false)) =~= p + strip_styled(
            rest,
            false,
        ));
    }
}

/// Inside a sequence, everything up to the closing `m` is dropped.
pub proof fn lemma_strip_in_esc(mid: Seq<char>, rest: Seq<char>)
    requires
        forall|i: int| 0 <= i < mid.len() ==> #[trigger] mid[i] != 'm',
    ensures
        strip_styled(mid + rest, true) == strip_styled(rest, true),
    decreases mid.len(),
{
    if mid.len() == 0 {
        assert(mid + rest =~= rest);
    } else {
        assert((mid + rest)[0] == mid[0]);
        assert((mid + rest).drop_first() =~= mid.drop_first() + rest);
        lemma_strip_in_esc(mid.drop_first(), rest);
    }
}

/// A complete style sequence strips to nothing.
pub proof fn lemma_strip_style_prefix(w: Seq<char>, rest: Seq<char>)
    requires
        is_style_seq(w),
    ensures
        strip_styled(w + rest, false) == strip_styled(rest, false),
{
    let mid = w.subrange(1, w.len() - 1);
    let close = seq![w.last()];
    assert((w + rest)[0] == w[0]);
    assert((w + rest).drop_first() =~= mid + (close + rest));
    lemma_strip_in_esc(mid, close + rest);
    assert((close + rest)[0] == 'm');
    assert((close + rest).drop_first() =~= rest);
}

/// Stripping recovers the plain text of a possibly style-wrapped field.
pub proof fn lemma_strip_wrapped(pre: Seq<char>, body: Seq<char>, post: Seq<char>)
    requires
        is_style_seq(pre),
        is_style_seq(post),
        esc_free(body),
    ensures
        strip_codes_spec(pre + body + post) == body,
{
    assert(pre + body + post =~= pre + (body + post));
    lemma_strip_style_prefix(pre, body + post);
    lemma_strip_plain(body, post);
    assert(post + Seq::<char>::empty() =~= post);
    lemma_strip_style_prefix(post, Seq::empty());
    assert(body + Seq::<char>::empty() =~= body);
}

// --- decimal digits ---

pub open spec fn is_digit(c: char) -> bool {
    48 <= c as int && c as int <= 57
}

pub open spec fn digit_val(c: char) -> nat {
    (c as int - 48) as nat
}

pub open spec fn digit_char(d: nat) -> char {
    if d == 0 {
        '0'
    } else if d == 1 {
        '1'
    } else if d == 2 {
        '2'
    } else if d == 3 {
        '3'
    } else if d == 4 {
        '4'
    } else if d == 5 {
        '5'
    } else if d == 6 {
        '6'
    } else if d == 7 {
        '7'
    } else if d == 8 {
        '8'
    } else {
        '9'
    }
}

/// The decimal digits of `n`, most significant first.
pub open spec fn digits_of(n: nat) -> Seq<char>
    decreases n,
{
    if n < 10 {
        seq![digit_char(n)]
    } else {
        digits_of(n / 10).push(digit_char(n % 10))
    }
}

pub open spec fn all_digits(s: Seq<char>) -> bool {
    forall|i: int| 0 <= i < s.len() ==> is_digit(#[trigger] s[i])
}

/// The value of a digit string, most significant first.
pub open spec fn digits_val(s: Seq<char>) -> nat
    decreases s.len(),
{
    if s.len() == 0 {
        0
    } else {
        digits_val(s.drop_last()) * 10 + digit_val(s.last())
    }
}

/// A pid token: nonempty, digits only, within range.
pub open spec fn parse_pid_spec(s: Seq<char>) -> Option<u64> {
    if s.len() > 0 && all_digits(s) && digits_val(s) <= u64::MAX {
        Some(digits_val(s) as u64)
    } else {
        None
    }
}

pub proof fn lemma_digit_char(d: nat)
    requires
        d <= 9,
    ensures
        is_digit(digit_char(d)),
        digit_val(digit_char(d)) == d,
        !is_space(digit_char(d)),
        digit_char(d) != '\u{1b}',
        digit_char(d) != '\n',
{
}

/// The digits of `n` form a well-formed digit string with value `n`.
pub proof fn lemma_digits_of(n: nat)
    ensures
        digits_of(n).len() >= 1,
        all_digits(digits_of(n)),
        no_spaces(digits_of(n)),
        esc_free(digits_of(n)),
        digits_val(digits_of(n)) == n,
    decreases n,
{
    if n < 10 {
        lemma_digit_char(n);
        let s = digits_of(n);
        assert(s.drop_last() =~= Seq::<char>::empty());
        assert(digits_val(Seq::<char>::empty()) == 0);
        assert(s.last() == digit_char(n));
    } else {
        lemma_digits_of(n / 10);
        lemma_digit_char(n % 10);
        let s = digits_of(n);
        assert(s.drop_last() =~= digits_of(n / 10));
        assert(s.last() == digit_char(n % 10));
        assert(n / 10 * 10 + n % 10 == n) by (nonlinear_arith);
    }
}

/// Extending a digit string never lowers its value.
pub proof fn lemma_digits_val_prefix(s: Seq<char>, i: int)
    requires
        0 <= i <= s.len(),
    ensures
        digits_val(s.take(i)) <= digits_val(s),
    decreases s.len() - i,
{
    if i == s.len() {
        assert(s.take(i) =~= s);
    } else {
        lemma_digits_val_prefix(s, i + 1);
        let t = s.take(i + 1);
        assert(t.drop_last() =~= s.take(i));
        assert(digits_val(t) == digits_val(s.take(i)) * 10 + digit_val(t.last()));
    }
}

/// Parsing inverts rendering for every pid.
pub proof fn lemma_parse_digits_round_trip(n: u64)
    ensures
        parse_pid_spec(digits_of(n as nat)) == Some(n),
{
    lemma_digits_of(n as nat);
}

} // verus!

verus! {

// Relies on String::push: appends exactly the given character.
pub assume_specification[ String::push ](s: &mut String, c: char)
    ensures
        final(s)@ == old(s)@.push(c),
;

/// Whether `c` is a whitespace separator.
pub fn space_char(c: char) -> (r: bool)
    ensures
        r == is_space(c),
{
    c == ' ' || c == '\t' || c == '\n' || c == '\r'
}

/// Append `k` spaces to `out`.
pub fn push_spaces(out: &mut String, k: usize)
    ensures
        final(out)@ == old(out)@ + space_run(k as nat),
{
    let mut i: usize = 0;
    while i < k
        invariant
            i <= k,
            out@ == old(out)@ + space_run(i as nat),
        decreases k - i,
    {
        out.push(' ');
        proof {
            assert(space_run((i + 1) as nat) =~= space_run(i as nat).push(' '));
            assert(old(out)@ + space_run(i as nat).push(' ') =~= (old(out)@ + space_run(
                i as nat,
            )).push(' '));
        }
        i = i + 1;
    }
    proof {
        assert(out@ == old(out)@ + space_run(k as nat));
    }
}

/// The character for one decimal digit.
pub fn digit_to_char(d: u64) -> (c: char)
    requires
        d <= 9,
    ensures
        c == digit_char(d as nat),
{
    if d == 0 {
        '0'
    } else if d == 1 {
        '1'
    } else if d == 2 {
        '2'
    } else if d == 3 {
        '3'
    } else if d == 4 {
        '4'
    } else if d == 5 {
        '5'
    } else if d == 6 {
        '6'
    } else if d == 7 {
        '7'
    } else if d == 8 {
        '8'
    } else {
        '9'
    }
}

/// Append the decimal digits of `n` to `out`.
pub fn push_u64(out: &mut String, n: u64)
    ensures
        final(out)@ == old(out)@ + digits_of(n as nat),
    decreases n,
{
    if n >= 10 {
        push_u64(out, n / 10);
    }
    let c = digit_to_char(n % 10);
    out.push(c);
    proof {
        if n < 10 {
            assert(digits_of(n as nat) =~= seq![digit_char(n as nat)]);
            assert(old(out)@ + digits_of(n as nat) =~= old(out)@.push(digit_char(n as nat)));
        } else {
            assert(old(out)@ + digits_of((n / 10) as nat).push(digit_char((n % 10) as nat)) =~= (old(
                out,
            )@ + digits_of((n / 10) as nat)).push(digit_char((n % 10) as nat)));
        }
    }
}

/// The decimal rendering of `n`.
pub fn u64_to_string(n: u64) -> (r: String)
    ensures
        r@ == digits_of(n as nat),
{
    let mut r = String::new();
    push_u64(&mut r, n);
    proof {
        assert(Seq::<char>::empty() + digits_of(n as nat) =~= digits_of(n as nat));
    }
    r
}

/// Parse a pid token: `Some` exactly for a nonempty all-digit token whose
/// value fits in a `u64`.
pub fn parse_pid(s: &str) -> (r: Option<u64>)
    ensures
        r == parse_pid_spec(s@),
{
    let n: usize = s.unicode_len();
    if n == 0 {
        return None;
    }
    let mut i: usize = 0;
    let mut acc: u64 = 0;
    while i < n
        invariant
            0 < n == s@.len(),
            i <= n,
            all_digits(s@.take(i as int)),
            acc as nat == digits_val(s@.take(i as int)),
        decreases n - i,
    {
        let c = s.get_char(i);
        let u: u32 = c as u32;
        proof {
            assert(s@.take(i as int + 1).drop_last() =~= s@.take(i as int));
            assert(s@.take(i as int + 1).last() == s@[i as int]);
        }
        if u < 48 || u > 57 {
            assert(!is_digit(s@[i as int]));
            assert(!all_digits(s@));
            return None;
        }
        let d: u64 = (u - 48) as u64;
        assert(is_digit(s@[i as int]) && digit_val(s@[i as int]) == d as nat);
        let overflowed: bool = match acc.checked_mul(10) {
            Some(x) => {
                match x.checked_add(d) {
                    Some(y) => {
                        acc = y;
                        false
                    },
                    None => true,
                }
            },
            None => true,
        };
        if overflowed {
            proof {
                assert(digits_val(s@.take(i as int + 1)) > u64::MAX);
                lemma_digits_val_prefix(s@, i as int + 1);
            }
            return None;
        }
        assert(all_digits(s@.take(i as int + 1)));
        i = i + 1;
    }
    proof {
        assert(s@.take(n as int) =~= s@);
    }
    Some(acc)
}

/// Remove ANSI style sequences from `s`.
pub fn strip_codes(s: &str) -> (r: String)
    ensures
        r@ == strip_codes_spec(s@),
{
    let n: usize = s.unicode_len();
    let mut out = String::new();
    let mut in_esc = false;
    let mut i: usize = 0;
    proof {
        assert(s@.skip(0) =~= s@);
        assert(Seq::<char>::empty() + strip_styled(s@, false) =~= strip_styled(s@, false));
    }
    while i < n
        invariant
            i <= n,
            n == s@.len(),
            strip_codes_spec(s@) == out@ + strip_styled(s@.skip(i as int), in_esc),
        decreases n - i,
    {
        let c = s.get_char(i);
        proof {
            let rest = s@.skip(i as int);
            assert(rest.len() > 0);
            assert(rest[0] == s@[i as int]);
            assert(rest.drop_first() =~= s@.skip(i as int + 1));
        }
        if in_esc {
            in_esc = c != 'm';
        } else if c == '\u{1b}' {
            in_esc = true;
        } else {
            let ghost prev = out@;
            out.push(c);
            proof {
                assert(out@ + strip_styled(s@.skip(i as int + 1), false) =~= prev + (seq![c]
                    + strip_styled(s@.skip(i as int + 1), false)));
            }
        }
        i = i + 1;
    }
    proof {
        assert(s@.skip(n as int) =~= Seq::<char>::empty());
    }
    out
}

} // verus!
