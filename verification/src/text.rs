//! Text measured in bytes of its UTF-8 encoding, and numbers written in decimal.
use vstd::prelude::*;
use vstd::string::*;
use vstd::utf8::*;

verus! {

/// The number of bytes that `text` takes in UTF-8.
pub open spec fn byte_len(text: Seq<char>) -> nat {
    encode_utf8(text).len()
}

/// As much of the beginning of `text` as takes at most `limit` bytes: its last characters are
/// dropped until it does.
pub open spec fn clipped(text: Seq<char>, limit: int) -> Seq<char>
    decreases text.len(),
{
    if text.len() == 0 || byte_len(text) <= limit {
        text
    } else {
        clipped(text.drop_last(), limit)
    }
}

/// The character for a single decimal digit.
pub open spec fn digit(d: int) -> char {
    (0x30 + d) as char
}

/// A natural number in decimal, without leading zeros.
pub open spec fn decimal_nat(n: nat) -> Seq<char>
    decreases n,
{
    if n < 10 {
        seq![digit(n as int)]
    } else {
        decimal_nat(n / 10).push(digit((n % 10) as int))
    }
}

/// An integer in decimal: a minus sign in front of a negative one, no sign otherwise.
pub open spec fn decimal(n: int) -> Seq<char> {
    if n < 0 {
        seq!['-'] + decimal_nat((-n) as nat)
    } else {
        decimal_nat(n as nat)
    }
}

/// Whether `text` consists of decimal digits only.
pub open spec fn all_digits(text: Seq<char>) -> bool {
    forall|i: int| 0 <= i < text.len() ==> '0' <= #[trigger] text[i] <= '9'
}

/// Encoding a concatenation concatenates the encodings.
pub proof fn lemma_encode_concat(a: Seq<char>, b: Seq<char>)
    ensures
        encode_utf8(a + b) == encode_utf8(a) + encode_utf8(b),
    decreases a.len(),
{
    if a.len() == 0 {
        assert(a + b =~= b);
        assert(encode_utf8(a) + encode_utf8(b) =~= encode_utf8(b));
    } else {
        assert((a + b).drop_first() =~= a.drop_first() + b);
        lemma_encode_concat(a.drop_first(), b);
        assert(encode_utf8(a + b) =~= encode_utf8(a) + encode_utf8(b));
    }
}

/// What is measured is the length of the encoding.
pub proof fn theorem_byte_len(text: Seq<char>)
    ensures
        byte_len(text) == vstd::utf8::encode_utf8(text).len(),
{
}

/// Byte lengths add up over a concatenation.
pub proof fn lemma_byte_len_concat(a: Seq<char>, b: Seq<char>)
    ensures
        byte_len(a + b) == byte_len(a) + byte_len(b),
{
    lemma_encode_concat(a, b);
}

/// A text takes no byte exactly when it has no character.
pub proof fn lemma_byte_len_zero(text: Seq<char>)
    ensures
        byte_len(text) == 0 <==> text.len() == 0,
{
    if text.len() > 0 {
        assert(encode_utf8(text).len() >= 1);
    }
}

/// Each character takes from one to four bytes.
proof fn lemma_byte_len_next(text: Seq<char>, k: int)
    requires
        0 <= k < text.len(),
    ensures
        byte_len(text.take(k)) < byte_len(text.take(k + 1)) <= byte_len(text.take(k)) + 4,
{
    let one = seq![text[k]];
    assert(text.take(k + 1) =~= text.take(k) + one);
    lemma_byte_len_concat(text.take(k), one);
    assert(one.drop_first() =~= Seq::empty());
    assert(encode_utf8(one.drop_first()) =~= Seq::empty());
    assert(encode_utf8(one) =~= encode_scalar(one[0] as u32));
}

/// A longer beginning takes no fewer bytes.
proof fn lemma_byte_len_take(text: Seq<char>, i: int, j: int)
    requires
        0 <= i <= j <= text.len(),
    ensures
        byte_len(text.take(i)) <= byte_len(text.take(j)),
    decreases j - i,
{
    if i < j {
        lemma_byte_len_take(text, i, j - 1);
        lemma_byte_len_next(text, j - 1);
    }
}

/// What is left of a clipped text is a prefix of it within the limit. Nothing is lost where the
/// whole text lies within the limit; otherwise one more character would not, so that fewer than
/// four bytes of the limit are unused.
pub proof fn theorem_clipped(text: Seq<char>, limit: int)
    requires
        0 <= limit,
    ensures
        clipped(text, limit).is_prefix_of(text),
        byte_len(clipped(text, limit)) <= limit,
        byte_len(text) <= limit ==> clipped(text, limit) == text,
        byte_len(text) > limit ==> {
            &&& clipped(text, limit).len() < text.len()
            &&& byte_len(text.take((clipped(text, limit).len() + 1) as int)) > limit
            &&& byte_len(clipped(text, limit)) > limit - 4
        },
    decreases text.len(),
{
    lemma_byte_len_zero(text);
    if byte_len(text) > limit {
        let rest = text.drop_last();
        let k = clipped(text, limit).len() as int;
        theorem_clipped(rest, limit);
        assert(text.take(text.len() as int) =~= text);
        if byte_len(rest) > limit {
            assert(rest.take(k + 1) =~= text.take(k + 1));
        }
        assert(clipped(text, limit) =~= text.take(k));
        lemma_byte_len_next(text, k);
    }
}

/// The place where a text is clipped is the only one with what lies in front of it inside the
/// limit, and one more character outside.
proof fn lemma_clipped_unique(text: Seq<char>, limit: int, k: int)
    requires
        0 <= limit,
        0 <= k < text.len(),
        byte_len(text.take(k)) <= limit < byte_len(text.take(k + 1)),
    ensures
        clipped(text, limit) == text.take(k),
{
    let c = clipped(text, limit).len() as int;
    assert(text.take(text.len() as int) =~= text);
    lemma_byte_len_take(text, k + 1, text.len() as int);
    theorem_clipped(text, limit);
    assert(clipped(text, limit) =~= text.take(c));
    if c < k {
        lemma_byte_len_take(text, c + 1, k);
    }
    if c > k {
        lemma_byte_len_take(text, k + 1, c);
    }
}

/// The bytes of any number of characters end at a character boundary.
proof fn lemma_prefix_boundary(text: Seq<char>, k: int)
    requires
        0 <= k <= text.len(),
    ensures
        is_char_boundary(encode_utf8(text), byte_len(text.take(k)) as int),
    decreases k,
{
    let bytes = encode_utf8(text);
    encode_utf8_valid_utf8(text);
    if k == 0 {
        lemma_byte_len_zero(text.take(0));
    } else {
        let rest = text.drop_first();
        lemma_prefix_boundary(rest, k - 1);
        encode_utf8_first_scalar(text);
        assert(pop_first_scalar(bytes) =~= encode_utf8(rest));
        assert(text.take(k).drop_first() =~= rest.take(k - 1));
        lemma_byte_len_take(text, k, text.len() as int);
        assert(text.take(text.len() as int) =~= text);
    }
}

/// The bytes in front of a character boundary encode a prefix of the text.
proof fn lemma_boundary_prefix(text: Seq<char>, at: int) -> (k: int)
    requires
        is_char_boundary(encode_utf8(text), at),
    ensures
        0 <= at <= byte_len(text),
        0 <= k <= text.len(),
        encode_utf8(text.take(k)) == encode_utf8(text).subrange(0, at),
{
    let bytes = encode_utf8(text);
    encode_utf8_valid_utf8(text);
    assert(0 <= at <= bytes.len());
    valid_utf8_split(bytes, at);
    decode_utf8_split(bytes, at);
    decode_utf8_encode_utf8(bytes.subrange(0, at));
    encode_utf8_decode_utf8(text);
    let head = decode_utf8(bytes.subrange(0, at));
    assert(head =~= text.take(head.len() as int));
    head.len() as int
}

/// Where the limit is a character boundary of the text, clipping uses all of it.
pub proof fn theorem_clipped_at_boundary(text: Seq<char>, limit: int)
    requires
        is_char_boundary(encode_utf8(text), limit),
    ensures
        byte_len(clipped(text, limit)) == limit,
        encode_utf8(clipped(text, limit)) == encode_utf8(text).subrange(0, limit),
{
    let k = lemma_boundary_prefix(text, limit);
    assert(text.take(text.len() as int) =~= text);
    if k < text.len() {
        lemma_byte_len_next(text, k);
        lemma_clipped_unique(text, limit, k);
    } else {
        theorem_clipped(text, limit);
    }
}

/// Decimal notation is made of digits, and there is at least one.
pub proof fn lemma_decimal_nat_digits(n: nat)
    ensures
        decimal_nat(n).len() >= 1,
        all_digits(decimal_nat(n)),
    decreases n,
{
    if n >= 10 {
        lemma_decimal_nat_digits(n / 10);
    }
}

/// Decimal notation gives a number by its digits: the one in front of `i` others tells how many
/// times the power of ten with `i` zeros goes into the number, leaving out multiples of ten. There
/// are as many digits as it takes, and a minus sign stands in front of those of a negative number.
pub proof fn theorem_decimal(n: int)
    ensures
        n >= 0 ==> ({
            let digits = decimal(n);
            &&& digits.len() > 0
            &&& n < vstd::arithmetic::power::pow(10, digits.len())
            &&& digits.len() > 1 ==> n >= vstd::arithmetic::power::pow(
                10,
                (digits.len() - 1) as nat,
            )
            &&& forall|i: int|
                0 <= i < digits.len() ==> #[trigger] digits[digits.len() - 1 - i] as int
                    == '0' as int + (n / vstd::arithmetic::power::pow(10, i as nat)) % 10
        }),
        n < 0 ==> decimal(n) == seq!['-'] + decimal(-n),
{
    if n >= 0 {
        lemma_decimal_nat_positions(n as nat);
    }
}

/// Each digit of a natural number.
proof fn lemma_decimal_nat_positions(n: nat)
    ensures
        decimal_nat(n).len() > 0,
        n < vstd::arithmetic::power::pow(10, decimal_nat(n).len()),
        decimal_nat(n).len() > 1 ==> n >= vstd::arithmetic::power::pow(
            10,
            (decimal_nat(n).len() - 1) as nat,
        ),
        forall|i: int|
            0 <= i < decimal_nat(n).len() ==> #[trigger] decimal_nat(n)[decimal_nat(n).len() - 1
                - i] as int == '0' as int + (n as int / vstd::arithmetic::power::pow(10, i as nat))
                % 10,
    decreases n,
{
    let digits = decimal_nat(n);
    let size = digits.len();
    vstd::arithmetic::power::lemma_pow0(10);
    vstd::arithmetic::power::lemma_pow1(10);
    if n >= 10 {
        let front = decimal_nat(n / 10);
        lemma_decimal_nat_positions(n / 10);
        lemma_pow_next((size - 1) as nat);
        if size > 2 {
            lemma_pow_next((size - 2) as nat);
        }
        assert forall|i: int| 0 <= i < size implies #[trigger] digits[size - 1 - i] as int
            == '0' as int + (n as int / vstd::arithmetic::power::pow(10, i as nat)) % 10 by {
            if i > 0 {
                let lower = vstd::arithmetic::power::pow(10, (i - 1) as nat);
                lemma_pow_next((i - 1) as nat);
                vstd::arithmetic::power::lemma_pow_positive(10, (i - 1) as nat);
                vstd::arithmetic::div_mod::lemma_div_denominator(n as int, 10, lower);
                assert(digits[size - 1 - i] == front[front.len() - 1 - (i - 1)]);
            }
        }
    }
}

/// The next power of ten.
proof fn lemma_pow_next(zeros: nat)
    ensures
        vstd::arithmetic::power::pow(10, zeros + 1) == 10 * vstd::arithmetic::power::pow(10, zeros),
{
    reveal(vstd::arithmetic::power::pow);
}

/// A natural number below a power of ten has at most as many digits as that power has zeros.
proof fn lemma_decimal_nat_len(n: nat, zeros: nat)
    requires
        zeros >= 1,
        n < vstd::arithmetic::power::pow(10, zeros),
    ensures
        decimal_nat(n).len() <= zeros,
    decreases n,
{
    reveal(vstd::arithmetic::power::pow);
    if n >= 10 {
        assert(vstd::arithmetic::power::pow(10, zeros) == 10 * vstd::arithmetic::power::pow(
            10,
            (zeros - 1) as nat,
        ));
        if zeros == 1 {
            assert(vstd::arithmetic::power::pow(10, 0) == 1);
        }
        lemma_decimal_nat_len(n / 10, (zeros - 1) as nat);
    }
}

/// A count takes at most twenty bytes in decimal.
pub proof fn lemma_count_bytes(count: int)
    requires
        0 <= count <= usize::MAX,
    ensures
        1 <= byte_len(decimal(count)) <= 20,
{
    reveal_with_fuel(vstd::arithmetic::power::pow, 21);
    assert(vstd::arithmetic::power::pow(10, 20) == 100_000_000_000_000_000_000);
    lemma_decimal_nat_len(count as nat, 20);
    lemma_decimal_nat_digits(count as nat);
    is_ascii_chars_encode_utf8(decimal(count));
}

/// Different natural numbers are written differently.
pub proof fn lemma_decimal_nat_injective(a: nat, b: nat)
    requires
        decimal_nat(a) == decimal_nat(b),
    ensures
        a == b,
    decreases a,
{
    let x = decimal_nat(a);
    let y = decimal_nat(b);
    if a >= 10 {
        lemma_decimal_nat_digits(a / 10);
    }
    if b >= 10 {
        lemma_decimal_nat_digits(b / 10);
    }
    assert(x.last() == digit((a % 10) as int));
    assert(y.last() == digit((b % 10) as int));
    assert(a % 10 == b % 10);
    if a >= 10 {
        assert(x.len() >= 2);
        assert(b >= 10);
        assert(x.drop_last() =~= decimal_nat(a / 10));
        assert(y.drop_last() =~= decimal_nat(b / 10));
        lemma_decimal_nat_injective(a / 10, b / 10);
    } else {
        assert(b < 10);
    }
}

/// Different integers are written differently.
pub proof fn lemma_decimal_injective(a: int, b: int)
    requires
        decimal(a) == decimal(b),
    ensures
        a == b,
{
    let x = decimal(a);
    let y = decimal(b);
    if a < 0 {
        lemma_decimal_nat_digits((-a) as nat);
        assert(x[0] == '-');
        if b >= 0 {
            lemma_decimal_nat_digits(b as nat);
            assert(y[0] >= '0');
        }
        assert(x.drop_first() =~= decimal_nat((-a) as nat));
        assert(y.drop_first() =~= decimal_nat((-b) as nat));
        lemma_decimal_nat_injective((-a) as nat, (-b) as nat);
    } else {
        lemma_decimal_nat_digits(a as nat);
        assert(x[0] >= '0');
        if b < 0 {
            assert(y[0] == '-');
        }
        lemma_decimal_nat_injective(a as nat, b as nat);
    }
}

/// The number of bytes that `text` takes in UTF-8.
pub fn text_bytes(text: &str) -> (n: usize)
    ensures
        n == byte_len(text@),
        n == vstd::utf8::encode_utf8(text@).len(),
{
    text.as_bytes().len()
}

/// As much of the beginning of `text` as takes at most `limit` bytes, in whole characters.
pub fn clip<'t>(text: &'t str, limit: usize) -> (head: &'t str)
    ensures
        head@ == clipped(text@, limit as int),
{
    if text_bytes(text) <= limit {
        return text;
    }
    proof {
        encode_utf8_valid_utf8(text@);
    }
    let mut at: usize = limit;
    while !text.is_char_boundary(at)
        invariant
            at <= limit < byte_len(text@),
            valid_utf8(encode_utf8(text@)),
            forall|j: int|
                at < j <= limit ==> !#[trigger] is_char_boundary(encode_utf8(text@), j),
        decreases at,
    {
        at = at - 1;
    }
    let (head, _tail) = text.split_at(at);
    proof {
        let k = lemma_boundary_prefix(text@, at as int);
        encode_utf8_decode_utf8(head@);
        encode_utf8_decode_utf8(text@.take(k));
        assert(text@.take(text@.len() as int) =~= text@);
        lemma_byte_len_next(text@, k);
        lemma_prefix_boundary(text@, k + 1);
        lemma_clipped_unique(text@, limit as int, k);
    }
    head
}

/// The digit `d` as text.
fn digit_text(d: u64) -> (text: &'static str)
    requires
        d < 10,
    ensures
        text@ == seq![digit(d as int)],
{
    proof {
        reveal_strlit("0");
        reveal_strlit("1");
        reveal_strlit("2");
        reveal_strlit("3");
        reveal_strlit("4");
        reveal_strlit("5");
        reveal_strlit("6");
        reveal_strlit("7");
        reveal_strlit("8");
        reveal_strlit("9");
    }
    if d == 0 {
        "0"
    } else if d == 1 {
        "1"
    } else if d == 2 {
        "2"
    } else if d == 3 {
        "3"
    } else if d == 4 {
        "4"
    } else if d == 5 {
        "5"
    } else if d == 6 {
        "6"
    } else if d == 7 {
        "7"
    } else if d == 8 {
        "8"
    } else {
        "9"
    }
}

/// Writes `n` in decimal behind what `out` holds.
fn append_digits(out: &mut String, n: u64)
    ensures
        final(out)@ == old(out)@ + decimal_nat(n as nat),
    decreases n,
{
    if n >= 10 {
        append_digits(out, n / 10);
    }
    out.append(digit_text(n % 10));
    proof {
        assert(out@ =~= old(out)@ + decimal_nat(n as nat));
    }
}

/// A signed number in decimal.
pub fn signed_text(n: i32) -> (text: String)
    ensures
        text@ == decimal(n as int),
{
    let mut text: String = String::new();
    if n < 0 {
        proof {
            reveal_strlit("-");
        }
        text.append("-");
        append_digits(&mut text, (-(n as i64)) as u64);
    } else {
        append_digits(&mut text, n as u64);
    }
    proof {
        assert(text@ =~= decimal(n as int));
    }
    text
}

/// A count in decimal.
pub fn count_text(n: usize) -> (text: String)
    ensures
        text@ == decimal(n as int),
{
    let mut text: String = String::new();
    append_digits(&mut text, n as u64);
    proof {
        assert(text@ =~= decimal(n as int));
    }
    text
}

} // verus!
