//! Pieces of text that a syslog line is made of.
use vstd::prelude::*;
use vstd::string::*;

verus! {

/// `char::is_whitespace` of std: whether the character has the Unicode property `White_Space`.
/// The contract lists the code points that have it.
pub assume_specification[ char::is_whitespace ](c: char) -> (r: bool)
    ensures
        r == is_white_space(c),
;

/// `String::push` of std: appends one character to the end of the string.
pub assume_specification[ String::push ](s: &mut String, c: char)
    ensures
        final(s)@ == old(s)@.push(c),
;

/// The characters with the Unicode property `White_Space`.
pub open spec fn is_white_space(c: char) -> bool {
    let n = c as int;
    ||| 0x09 <= n <= 0x0d
    ||| n == 0x20
    ||| n == 0x85
    ||| n == 0xa0
    ||| n == 0x1680
    ||| 0x2000 <= n <= 0x200a
    ||| n == 0x2028
    ||| n == 0x2029
    ||| n == 0x202f
    ||| n == 0x205f
    ||| n == 0x3000
}

/// The decimal digit `n`.
pub open spec fn digit(n: int) -> char
    recommends
        0 <= n <= 9,
{
    (48 + n) as char
}

/// `n` in decimal, without leading zeros.
pub open spec fn decimal(n: nat) -> Seq<char>
    decreases n,
{
    if n < 10 {
        seq![digit(n as int)]
    } else {
        decimal(n / 10).push(digit((n % 10) as int))
    }
}

/// Appends `n` in decimal to `out`.
pub fn push_decimal(out: &mut String, n: u16)
    ensures
        final(out)@ == old(out)@ + decimal(n as nat),
    decreases n,
{
    if n >= 10 {
        push_decimal(out, n / 10);
    }
    let d: u8 = (n % 10) as u8;
    out.push((48u8 + d) as char);
}

/// The control characters: the codes below the space, delete, and the codes after it up to the
/// no-break space.
pub open spec fn is_control(c: char) -> bool {
    let n = c as int;
    n < 0x20 || 0x7f <= n <= 0x9f
}

/// `c` as it stands in a token: an underscore where it is white space or a control character.
pub open spec fn token_char(c: char) -> char {
    if is_white_space(c) || is_control(c) { '_' } else { c }
}

/// The token for `s`: its first `max` characters without white space and control characters, or
/// the nil value `-` where there is none.
pub open spec fn token(s: Seq<char>, max: int) -> Seq<char> {
    if s.len() == 0 || max <= 0 {
        "-"@
    } else if s.len() <= max {
        s.map_values(|c: char| token_char(c))
    } else {
        s.take(max).map_values(|c: char| token_char(c))
    }
}

/// A printable single token (no white space, no control character) of at most `max` characters, or `-` when empty.
pub fn token_or_nil(s: &str, max: usize) -> (r: String)
    ensures
        r@ == token(s@, max as int),
        s@.len() == 0 || max == 0 ==> r@ == seq!['-'],
        s@.len() >= 1 && max >= 1 ==> r@.len() == (if s@.len() <= max {
            s@.len() as int
        } else {
            max as int
        }),
        forall|i: int|
            0 <= i < s@.len() && i < max ==> #[trigger] r@[i] == (if is_white_space(s@[i]) || (
            s@[i] as int) < 0x20 || 0x7f <= (s@[i] as int) <= 0x9f {
                '_'
            } else {
                s@[i]
            }),
{
    proof {
        law_token_takes_the_first_characters(s@, max as int);
    }
    if s.is_empty() {
        return "-".to_owned();
    }
    let mut t = String::new();
    let mut n: usize = 0;
    let mut chars = s.chars();
    while n < max
        invariant_except_break
            n <= max,
            n <= s@.len(),
            vstd::std_specs::iter::IteratorSpec::remaining(&chars) == s@.skip(n as int),
            t@ == s@.take(n as int).map_values(|c: char| token_char(c)),
        ensures
            n <= max,
            n <= s@.len(),
            n == max || n == s@.len(),
            t@ == s@.take(n as int).map_values(|c: char| token_char(c)),
        decreases max - n,
    {
        match chars.next() {
            None => break,
            Some(c) => {
                let control = c < ' ' || '\u{7f}' <= c && c <= '\u{9f}';
                t.push(if c.is_whitespace() || control { '_' } else { c });
                n = n + 1;
            },
        }
    }
    if t.as_str().is_empty() {
        return "-".to_owned();
    }
    t
}

/// `c` as it stands in a line: a space where it breaks a line.
pub open spec fn line_char(c: char) -> char {
    if c == '\n' || c == '\r' { ' ' } else { c }
}

/// `s` on a single line: a space in place of every line break.
pub open spec fn one_line(s: Seq<char>) -> Seq<char> {
    s.map_values(|c: char| line_char(c))
}

/// `s` on a single line: a space in place of every line break.
pub fn to_one_line(s: &str) -> (r: String)
    ensures
        r@ == one_line(s@),
        r@.len() == s@.len(),
        forall|i: int|
            0 <= i < s@.len() ==> #[trigger] r@[i] == (if s@[i] == '\n' || s@[i] == '\r' {
                ' '
            } else {
                s@[i]
            }),
{
    let mut line = String::new();
    let mut chars = s.chars();
    let ghost mut n: int = 0;
    loop
        invariant_except_break
            0 <= n <= s@.len(),
            vstd::std_specs::iter::IteratorSpec::remaining(&chars) == s@.skip(n),
            line@ == one_line(s@.take(n)),
        ensures
            line@ == one_line(s@),
        decreases s@.len() - n,
    {
        match chars.next() {
            None => {
                assert(s@.take(n) =~= s@);
                break;
            },
            Some(c) => {
                line.push(if c == '\n' || c == '\r' { ' ' } else { c });
                proof {
                    assert(one_line(s@.take(n + 1)) =~= one_line(s@.take(n)).push(line_char(s@[n])));
                    n = n + 1;
                }
            },
        }
    }
    line
}

/// Text on a single line has no line breaks, as many characters as before, and all the others in
/// their places; text that has no line breaks stays as it is.
pub proof fn law_one_line(s: Seq<char>)
    ensures
        !one_line(s).contains('\n'),
        !one_line(s).contains('\r'),
        one_line(s).len() == s.len(),
        forall|i: int|
            0 <= i < s.len() && s[i] != '\n' && s[i] != '\r' ==> #[trigger] one_line(s)[i] == s[i],
        !s.contains('\n') && !s.contains('\r') ==> one_line(s) == s,
{
    if !s.contains('\n') && !s.contains('\r') {
        assert forall|i: int| 0 <= i < s.len() implies one_line(s)[i] == s[i] by {
            assert(s.contains(s[i]));
        }
        assert(one_line(s) =~= s);
    }
}

/// A token is never empty, never longer than asked for (the nil value aside), and free of white
/// space and control characters.
pub proof fn law_token_is_one_word(s: Seq<char>, max: int)
    ensures
        1 <= token(s, max).len(),
        max >= 1 ==> token(s, max).len() <= max,
        forall|i: int|
            0 <= i < token(s, max).len() ==> !is_white_space(#[trigger] token(s, max)[i])
                && !is_control(token(s, max)[i]),
{
    reveal_strlit("-");
}

/// Text that is already a token of the wanted length is kept as it is.
pub proof fn law_token_keeps_words(s: Seq<char>, max: int)
    requires
        1 <= s.len() <= max,
        forall|i: int| 0 <= i < s.len() ==> !is_white_space(#[trigger] s[i]) && !is_control(s[i]),
    ensures
        token(s, max) == s,
{
    assert(token(s, max) =~= s);
}

/// The decimal text of a number is not empty and has nothing but digits.
pub proof fn lemma_decimal_digits(n: nat)
    ensures
        decimal(n).len() >= 1,
        forall|i: int| 0 <= i < decimal(n).len() ==> '0' <= #[trigger] decimal(n)[i] <= '9',
    decreases n,
{
    if n >= 10 {
        lemma_decimal_digits(n / 10);
    }
}

/// Numbers with the same decimal text are the same.
pub proof fn lemma_decimal_injective(a: nat, b: nat)
    requires
        decimal(a) == decimal(b),
    ensures
        a == b,
    decreases a,
{
    lemma_decimal_digits(a / 10);
    lemma_decimal_digits(b / 10);
    if a >= 10 && b >= 10 {
        assert(decimal(a).drop_last() =~= decimal(a / 10));
        assert(decimal(b).drop_last() =~= decimal(b / 10));
        lemma_decimal_injective(a / 10, b / 10);
    }
    assert(decimal(a).last() == digit((a % 10) as int));
    assert(decimal(b).last() == digit((b % 10) as int));
}

/// A token takes the first `max` characters of the text, all of it where it has no more, one for
/// one and in their order: white space and control characters become underscores, every other
/// character stays. The nil value `-` stands for nothing but empty text, or no room at all.
pub proof fn law_token_takes_the_first_characters(s: Seq<char>, max: int)
    ensures
        s.len() >= 1 && max >= 1 ==> {
            &&& token(s, max).len() == (if s.len() <= max {
                s.len() as int
            } else {
                max
            })
            &&& forall|i: int|
                0 <= i < s.len() && i < max ==> #[trigger] token(s, max)[i] == (if is_white_space(s[i])
                    || (s[i] as int) < 0x20 || 0x7f <= (s[i] as int) <= 0x9f {
                    '_'
                } else {
                    s[i]
                })
        },
        s.len() == 0 || max <= 0 ==> token(s, max) == seq!['-'],
{
    reveal_strlit("-");
    if s.len() == 0 || max <= 0 {
        assert(token(s, max) =~= seq!['-']);
    }
}

/// Text on a single line has a space exactly where the text has a line break or a space, and every
/// other character in its place.
pub proof fn law_one_line_puts_spaces_for_breaks(s: Seq<char>)
    ensures
        one_line(s).len() == s.len(),
        forall|i: int|
            0 <= i < s.len() ==> #[trigger] one_line(s)[i] == (if s[i] == '\n' || s[i] == '\r' {
                ' '
            } else {
                s[i]
            }),
{
}

/// Read digit by digit, the decimal text of a number gives the number; and it has no leading zero.
pub proof fn law_decimal_reads_back(n: nat)
    ensures
        decimal(n).fold_left(0int, |value: int, c: char| value * 10 + (c as int - 48)) == n,
        forall|i: int| 0 <= i < decimal(n).len() ==> '0' <= #[trigger] decimal(n)[i] <= '9',
        decimal(n).len() >= 1,
        n > 0 ==> decimal(n)[0] != '0',
    decreases n,
{
    let read = |value: int, c: char| value * 10 + (c as int - 48);
    lemma_decimal_digits(n);
    let text = decimal(n);
    let head = text.drop_last();
    if n >= 10 {
        law_decimal_reads_back(n / 10);
        assert(head =~= decimal(n / 10));
        assert(text.fold_left(0int, read) == read(head.fold_left(0int, read), text.last()));
    } else {
        assert(head =~= Seq::<char>::empty());
        assert(head.fold_left(0int, read) == 0);
        assert(text.fold_left(0int, read) == read(head.fold_left(0int, read), text.last()));
    }
}

} // verus!
