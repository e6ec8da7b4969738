//! Text building blocks shared by the rest of the library: a character
//! pusher, decimal rendering of integers, padding, joining, the ordering
//! of names, and the quoting used when a list of strings is shown.
use vstd::prelude::*;

verus! {

/// Appends one character to a `String` (std's `String::push`, which vstd
/// does not specify). Claimed: the text grows by exactly that character.
#[verifier::external_body]
pub(crate) fn push_char(s: &mut String, c: char)
    ensures
        final(s)@ == old(s)@.push(c),
{
    s.push(c);
}

/// The character of a decimal digit `d` (0 to 9).
pub open spec fn digit_char(d: int) -> char {
    if d == 0 {
        '0'
    } else if d == 1 {
        '1'
    } else if d == 2 {
        '2'
    } else if d == 3 {
        '3'
    } else if d == 4 {
        '4'
    } else if d == 5 {
        '5'
    } else if d == 6 {
        '6'
    } else if d == 7 {
        '7'
    } else if d == 8 {
        '8'
    } else {
        '9'
    }
}

/// The decimal digits of `n`, most significant first, with no leading zeros
/// (and the single digit `0` for zero).
pub open spec fn decimal(n: nat) -> Seq<char>
    decreases n,
{
    if n < 10 {
        seq![digit_char(n as int)]
    } else {
        decimal(n / 10).push(digit_char((n % 10) as int))
    }
}

/// The decimal text of a signed integer: a minus sign before the digits of
/// its magnitude when it is negative.
pub open spec fn signed_decimal(n: int) -> Seq<char> {
    if n < 0 {
        seq!['-'] + decimal((-n) as nat)
    } else {
        decimal(n as nat)
    }
}

/// The decimal text of `n`, left-padded with zeros to at least two digits.
pub open spec fn two_digits(n: nat) -> Seq<char> {
    if n < 10 {
        seq!['0'] + decimal(n)
    } else {
        decimal(n)
    }
}

/// `n` space characters.
pub open spec fn spaces(n: nat) -> Seq<char>
    decreases n,
{
    if n == 0 {
        Seq::empty()
    } else {
        spaces((n - 1) as nat).push(' ')
    }
}

/// `t` padded on the right with spaces up to `width` characters; text that
/// is already that wide or wider is left as it is.
pub open spec fn pad_right(t: Seq<char>, width: nat) -> Seq<char> {
    if t.len() < width {
        t + spaces((width - t.len()) as nat)
    } else {
        t
    }
}

/// The parts joined with `sep` between each two neighbours.
pub open spec fn join(parts: Seq<Seq<char>>, sep: Seq<char>) -> Seq<char>
    decreases parts.len(),
{
    if parts.len() == 0 {
        Seq::empty()
    } else if parts.len() == 1 {
        parts[0]
    } else {
        join(parts.drop_last(), sep) + sep + parts.last()
    }
}

fn digit(d: u128) -> (c: char)
    requires
        d < 10,
    ensures
        c == digit_char(d as int),
{
    if d == 0 {
        '0'
    } else if d == 1 {
        '1'
    } else if d == 2 {
        '2'
    } else if d == 3 {
        '3'
    } else if d == 4 {
        '4'
    } else if d == 5 {
        '5'
    } else if d == 6 {
        '6'
    } else if d == 7 {
        '7'
    } else if d == 8 {
        '8'
    } else {
        '9'
    }
}

/// Appends the decimal digits of `n`.
pub fn push_decimal(s: &mut String, n: u128)
    ensures
        final(s)@ == old(s)@ + decimal(n as nat),
    decreases n,
{
    if n >= 10 {
        push_decimal(s, n / 10);
    }
    push_char(s, digit(n % 10));
    proof {
        if n >= 10 {
            assert(decimal(n as nat) == decimal((n / 10) as nat).push(digit_char((n % 10) as int)));
            assert(s@ =~= old(s)@ + decimal(n as nat));
        } else {
            assert(s@ =~= old(s)@ + decimal(n as nat));
        }
    }
}

/// Appends the decimal text of a signed integer.
pub fn push_signed(s: &mut String, n: i64)
    ensures
        final(s)@ == old(s)@ + signed_decimal(n as int),
{
    if n < 0 {
        push_char(s, '-');
        let magnitude: u128 = (0i128 - (n as i128)) as u128;
        push_decimal(s, magnitude);
        assert(s@ =~= old(s)@ + signed_decimal(n as int));
    } else {
        push_decimal(s, n as u128);
    }
}

/// Appends `n` with at least two digits, zero-padded.
pub fn push_two_digits(s: &mut String, n: u32)
    ensures
        final(s)@ == old(s)@ + two_digits(n as nat),
{
    if n < 10 {
        push_char(s, '0');
    }
    push_decimal(s, n as u128);
    assert(s@ =~= old(s)@ + two_digits(n as nat));
}

/// Appends a `String` or string slice.
pub fn push_text(s: &mut String, t: &str)
    ensures
        final(s)@ == old(s)@ + t@,
{
    s.append(t);
}

/// Appends `t` padded on the right with spaces to `width` characters.
pub fn push_padded(s: &mut String, t: &str, width: usize)
    ensures
        final(s)@ == old(s)@ + pad_right(t@, width as nat),
{
    let len = t.unicode_len();
    push_text(s, t);
    if len < width {
        let mut i: usize = len;
        while i < width
            invariant
                len <= i <= width,
                len == t@.len(),
                s@ == old(s)@ + t@ + spaces((i - len) as nat),
            decreases width - i,
        {
            push_char(s, ' ');
            i = i + 1;
            assert(spaces((i - len) as nat) == spaces((i - 1 - len) as nat).push(' '));
            assert(s@ =~= old(s)@ + t@ + spaces((i - len) as nat));
        }
        assert(s@ =~= old(s)@ + pad_right(t@, width as nat));
    } else {
        assert(s@ =~= old(s)@ + pad_right(t@, width as nat));
    }
}

/// The map from a list of `String`s to their character sequences.
pub open spec fn texts(v: Seq<String>) -> Seq<Seq<char>> {
    v.map_values(|t: String| t@)
}

/// Appends the parts joined with `sep`.
pub fn push_joined(s: &mut String, parts: &Vec<String>, sep: &str)
    ensures
        final(s)@ == old(s)@ + join(texts(parts@), sep@),
{
    let n = parts.len();
    let mut i: usize = 0;
    while i < n
        invariant
            i <= n,
            n == parts@.len(),
            s@ == old(s)@ + join(texts(parts@).take(i as int), sep@),
        decreases n - i,
    {
        let ghost prefix = texts(parts@).take(i as int);
        let ghost next = texts(parts@).take(i + 1);
        assert(next.drop_last() =~= prefix);
        assert(next.last() == parts@[i as int]@);
        if i > 0 {
            push_text(s, sep);
        }
        push_text(s, parts[i].as_str());
        i = i + 1;
        proof {
            if i == 1 {
                assert(join(next, sep@) == next[0]);
                assert(join(prefix, sep@) =~= Seq::<char>::empty());
            }
            assert(s@ =~= old(s)@ + join(next, sep@));
        }
    }
    assert(texts(parts@).take(n as int) =~= texts(parts@));
}

/// Strict lexicographic order on character sequences, comparing characters
/// by code point; a proper prefix comes first. This is the order of Rust's
/// `String` comparison (UTF-8 preserves code-point order).
pub open spec fn text_less(a: Seq<char>, b: Seq<char>) -> bool
    decreases a.len(),
{
    if a.len() == 0 {
        b.len() > 0
    } else if b.len() == 0 {
        false
    } else if a[0] != b[0] {
        (a[0] as int) < (b[0] as int)
    } else {
        text_less(a.drop_first(), b.drop_first())
    }
}

/// No sequence is below itself.
pub proof fn lemma_text_less_irreflexive(a: Seq<char>)
    ensures
        !text_less(a, a),
    decreases a.len(),
{
    if a.len() > 0 {
        lemma_text_less_irreflexive(a.drop_first());
    }
}

/// Two different sequences are ordered one way or the other, never both.
pub proof fn lemma_text_less_total(a: Seq<char>, b: Seq<char>)
    ensures
        a != b ==> text_less(a, b) || text_less(b, a),
        !(text_less(a, b) && text_less(b, a)),
    decreases a.len(),
{
    if a.len() > 0 && b.len() > 0 {
        if a[0] == b[0] {
            lemma_text_less_total(a.drop_first(), b.drop_first());
            if a.drop_first() == b.drop_first() {
                assert(a =~= seq![a[0]] + a.drop_first());
                assert(b =~= seq![b[0]] + b.drop_first());
            }
        } else {
            assert((a[0] as int) != (b[0] as int));
        }
    } else if a.len() == 0 && b.len() == 0 {
        assert(a =~= b);
    }
}

/// The order is transitive.
pub proof fn lemma_text_less_transitive(a: Seq<char>, b: Seq<char>, c: Seq<char>)
    requires
        text_less(a, b),
        text_less(b, c),
    ensures
        text_less(a, c),
    decreases a.len(),
{
    if a.len() > 0 && b.len() > 0 && c.len() > 0 {
        if a[0] == b[0] && b[0] == c[0] {
            lemma_text_less_transitive(a.drop_first(), b.drop_first(), c.drop_first());
        } else {
            assert((a[0] as int) != (c[0] as int) || a[0] == c[0]);
            if a[0] == c[0] {
                assert((a[0] as int) == (c[0] as int));
            }
        }
    }
}

/// Whether `a` comes strictly before `b` in name order.
pub fn less_than(a: &str, b: &str) -> (r: bool)
    ensures
        r == text_less(a@, b@),
{
    let la = a.unicode_len();
    let lb = b.unicode_len();
    let mut i: usize = 0;
    assert(a@.skip(0) =~= a@);
    assert(b@.skip(0) =~= b@);
    while i < la && i < lb
        invariant
            i <= la,
            i <= lb,
            la == a@.len(),
            lb == b@.len(),
            text_less(a@, b@) == text_less(a@.skip(i as int), b@.skip(i as int)),
        decreases la - i,
    {
        let ca = a.get_char(i);
        let cb = b.get_char(i);
        assert(a@.skip(i as int)[0] == ca);
        assert(b@.skip(i as int)[0] == cb);
        if (ca as u32) != (cb as u32) {
            return (ca as u32) < (cb as u32);
        }
        assert(a@.skip(i as int).drop_first() =~= a@.skip(i + 1));
        assert(b@.skip(i as int).drop_first() =~= b@.skip(i + 1));
        i = i + 1;
    }
    i < lb
}

/// Whether two texts are equal.
pub fn same_text(a: &str, b: &str) -> (r: bool)
    ensures
        r == (a@ == b@),
{
    let x = String::from_str(a);
    let y = String::from_str(b);
    x == y
}

/// What Rust's `char::escape_debug` yields for `c`.
pub uninterp spec fn char_escape_debug(c: char) -> Seq<char>;

/// std's `char::escape_debug`, collected into a `String`. Claimed: the
/// result is the fixed escape text of `c`, named `char_escape_debug`, and a
/// printable ASCII character other than a backslash or a quote stands for
/// itself.
#[verifier::external_body]
fn escape_debug(c: char) -> (r: String)
    ensures
        r@ == char_escape_debug(c),
        (' ' <= c <= '~' && c != '\\' && c != '\'' && c != '"') ==> r@ == seq![c],
{
    c.escape_debug().to_string()
}

/// The escape of one character inside a debug-quoted string: a single
/// quote stands as it is, every other character as `char::escape_debug`
/// renders it.
pub open spec fn quoted_char(c: char) -> Seq<char> {
    if c == '\'' {
        seq!['\'']
    } else {
        char_escape_debug(c)
    }
}

/// The escaped characters of `t`, one escape after the other.
pub open spec fn escaped(t: Seq<char>) -> Seq<char>
    decreases t.len(),
{
    if t.len() == 0 {
        Seq::empty()
    } else {
        escaped(t.drop_last()) + quoted_char(t.last())
    }
}

/// `t` as Rust's `Debug` shows a string: in double quotes, escaped.
pub open spec fn debug_quoted(t: Seq<char>) -> Seq<char> {
    seq!['"'] + escaped(t) + seq!['"']
}

/// Appends `t` as `Debug` shows a string.
pub fn push_debug_quoted(s: &mut String, t: &str)
    ensures
        final(s)@ == old(s)@ + debug_quoted(t@),
{
    push_char(s, '"');
    let n = t.unicode_len();
    let mut i: usize = 0;
    while i < n
        invariant
            i <= n,
            n == t@.len(),
            s@ == old(s)@ + seq!['"'] + escaped(t@.take(i as int)),
        decreases n - i,
    {
        let c = t.get_char(i);
        if (c as u32) == ('\'' as u32) {
            push_char(s, '\'');
        } else {
            let e = escape_debug(c);
            push_text(s, e.as_str());
        }
        proof {
            assert(t@.take(i + 1).drop_last() =~= t@.take(i as int));
            assert(t@.take(i + 1).last() == c);
        }
        i = i + 1;
        assert(s@ =~= old(s)@ + seq!['"'] + escaped(t@.take(i as int)));
    }
    assert(t@.take(n as int) =~= t@);
    push_char(s, '"');
    assert(s@ =~= old(s)@ + debug_quoted(t@));
}

/// A list of texts as `Debug` shows a `Vec<String>`: each quoted, separated
/// by a comma and a space, in square brackets.
pub open spec fn debug_list(items: Seq<Seq<char>>) -> Seq<char> {
    seq!['['] + join(items.map_values(|t: Seq<char>| debug_quoted(t)), ", "@) + seq![']']
}

/// Appends a list of strings as `Debug` shows it.
pub fn push_debug_list(s: &mut String, items: &Vec<String>)
    ensures
        final(s)@ == old(s)@ + debug_list(texts(items@)),
{
    let ghost quoted = texts(items@).map_values(|t: Seq<char>| debug_quoted(t));
    push_char(s, '[');
    let n = items.len();
    let mut i: usize = 0;
    while i < n
        invariant
            i <= n,
            n == items@.len(),
            quoted == texts(items@).map_values(|t: Seq<char>| debug_quoted(t)),
            s@ == old(s)@ + seq!['['] + join(quoted.take(i as int), ", "@),
        decreases n - i,
    {
        let ghost prefix = quoted.take(i as int);
        let ghost next = quoted.take(i + 1);
        assert(next.drop_last() =~= prefix);
        assert(next.last() == debug_quoted(items@[i as int]@));
        if i > 0 {
            push_text(s, ", ");
        }
        push_debug_quoted(s, items[i].as_str());
        i = i + 1;
        proof {
            if i == 1 {
                assert(join(next, ", "@) == next[0]);
                assert(join(prefix, ", "@) =~= Seq::<char>::empty());
            }
            assert(s@ =~= old(s)@ + seq!['['] + join(next, ", "@));
        }
    }
    assert(quoted.take(n as int) =~= quoted);
    push_char(s, ']');
    assert(s@ =~= old(s)@ + debug_list(texts(items@)));
}

/// The digit character of `d` (0 to 9) is the character `d` places after
/// `'0'`.
pub proof fn lemma_digit_char_code(d: int)
    requires
        0 <= d < 10,
    ensures
        digit_char(d) as int == '0' as int + d,
{
}

/// Two-digit text shows the tens and then the units of `n` (below 100):
/// 2 reads `02`, 35 reads `35`.
pub proof fn lemma_two_digits_are_tens_and_units(n: nat)
    requires
        n < 100,
    ensures
        two_digits(n).len() == 2,
        two_digits(n)[0] as int == '0' as int + n / 10,
        two_digits(n)[1] as int == '0' as int + n % 10,
{
    lemma_digit_char_code((n / 10) as int);
    lemma_digit_char_code((n % 10) as int);
    if n >= 10 {
        assert(decimal(n / 10) == seq![digit_char((n / 10) as int)]);
        assert(decimal(n) == decimal(n / 10).push(digit_char((n % 10) as int)));
    } else {
        lemma_digit_char_code(0);
        assert(n / 10 == 0 && n % 10 == n);
    }
}

} // verus!
