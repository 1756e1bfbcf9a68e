//! Text that the other modules are built from: decimal numbers, separated lists and strings that
//! are cut to a number of bytes.
use vstd::prelude::*;
use vstd::utf8::*;

verus! {

/// The character of a decimal digit.
pub open spec fn digit(d: nat) -> char
    recommends
        d < 10,
{
    (('0' as u32) + d) as char
}

/// A number in decimal, without leading zeros.
pub open spec fn decimal(n: nat) -> Seq<char>
    decreases n,
{
    if n < 10 {
        seq![digit(n)]
    } else {
        decimal(n / 10).push(digit(n % 10))
    }
}

/// The number that a sequence of decimal digits stands for.
pub open spec fn decimal_value(s: Seq<char>) -> int
    decreases s.len(),
{
    if s.len() == 0 {
        0
    } else {
        10 * decimal_value(s.drop_last()) + (s.last() as u32 - '0' as u32)
    }
}

/// The parts in order, with the separator between each two neighbours.
pub open spec fn joined(parts: Seq<Seq<char>>, sep: Seq<char>) -> Seq<char>
    decreases parts.len(),
{
    if parts.len() == 0 {
        Seq::empty()
    } else if parts.len() == 1 {
        parts[0]
    } else {
        joined(parts.drop_last(), sep) + sep + parts.last()
    }
}

/// The strings of a vector, each as its characters.
pub open spec fn views(parts: Seq<String>) -> Seq<Seq<char>> {
    parts.map_values(|s: String| s@)
}

/// Whether cutting `s` to `limit` bytes of UTF-8 leaves every character whole.
pub open spec fn cuts_cleanly(s: Seq<char>, limit: nat) -> bool {
    encode_utf8(s).len() <= limit || is_char_boundary(encode_utf8(s), limit as int)
}

/// `s`, cut to its first `limit` bytes of UTF-8 where it is longer.
pub open spec fn truncated(s: Seq<char>, limit: nat) -> Seq<char>
    recommends
        cuts_cleanly(s, limit),
{
    if encode_utf8(s).len() <= limit {
        s
    } else {
        decode_utf8(encode_utf8(s).subrange(0, limit as int))
    }
}

/// The string that holds one decimal digit.
fn digit_str(d: u16) -> (r: &'static str)
    requires
        d < 10,
    ensures
        r@ == seq![digit(d as nat)],
{
    proof {
        reveal_strlit("0");
        reveal_strlit("1");
        reveal_strlit("2");
        reveal_strlit("3");
        reveal_strlit("4");
        reveal_strlit("5");
        reveal_strlit("6");
        reveal_strlit("7");
        reveal_strlit("8");
        reveal_strlit("9");
    }
    match d {
        0 => "0",
        1 => "1",
        2 => "2",
        3 => "3",
        4 => "4",
        5 => "5",
        6 => "6",
        7 => "7",
        8 => "8",
        _ => "9",
    }
}

/// Writes a number in decimal.
pub fn decimal_string(n: u16) -> (r: String)
    ensures
        r@ == decimal(n as nat),
        r@.len() > 0,
        forall|i: int| 0 <= i < r@.len() ==> '0' <= #[trigger] r@[i] <= '9',
        r@[0] == '0' ==> r@.len() == 1,
        decimal_value(r@) == n,
    decreases n,
{
    proof {
        law_decimal_reads_back(n as nat);
        law_decimal_is_canonical(n as nat);
    }
    if n < 10 {
        digit_str(n).to_string()
    } else {
        let mut r = decimal_string(n / 10);
        r.append(digit_str(n % 10));
        r
    }
}

/// `Itertools::join`: the elements in order, the separator between each two neighbours. With no
/// element the result is empty.
#[verifier::external_body]
pub(crate) fn join(parts: &Vec<String>, sep: &str) -> (r: String)
    ensures
        r@ == joined(views(parts@), sep@),
{
    itertools::Itertools::join(&mut parts.iter(), sep)
}

/// Says whether `s` can be cut to `limit` bytes without splitting a character.
pub fn can_truncate(s: &str, limit: usize) -> (r: bool)
    ensures
        r == cuts_cleanly(s@, limit as nat),
        r == (encode_utf8(s@).len() <= limit || is_char_boundary(encode_utf8(s@), limit as int)),
{
    s.as_bytes().len() <= limit || s.is_char_boundary(limit)
}

/// Cuts `s` to its first `limit` bytes where it is longer.
pub fn truncate(s: &str, limit: usize) -> (r: String)
    requires
        cuts_cleanly(s@, limit as nat),
    ensures
        r@ == truncated(s@, limit as nat),
        r@.is_prefix_of(s@),
        encode_utf8(s@).len() <= limit ==> r@ == s@,
        encode_utf8(s@).len() > limit ==> encode_utf8(r@).len() == limit,
{
    proof {
        law_truncated_is_a_fitting_prefix(s@, limit as nat);
    }
    if s.as_bytes().len() <= limit {
        s.to_string()
    } else {
        let (head, _tail) = s.split_at(limit);
        proof {
            encode_utf8_decode_utf8(head@);
        }
        head.to_string()
    }
}

/// A digit's character stands as far behind that of zero as the digit is great.
pub proof fn law_digits_are_consecutive(d: nat)
    requires
        d < 10,
    ensures
        digit(d) as u32 == 48 + d,
{
}

/// A sequence of digits is read as a decimal number: each digit more makes the number ten times
/// as great and adds its own value.
pub proof fn law_decimal_value_reads_digits(s: Seq<char>, c: char)
    ensures
        decimal_value(Seq::empty()) == 0,
        decimal_value(s.push(c)) == 10 * decimal_value(s) + (c as u32 - 48),
{
    assert(s.push(c).drop_last() =~= s);
}

/// Joined parts stand in order, with the separator between each two neighbours and nowhere else.
pub proof fn law_joined_puts_the_separator_between(
    parts: Seq<Seq<char>>,
    part: Seq<char>,
    sep: Seq<char>,
)
    ensures
        joined(Seq::empty(), sep) == Seq::<char>::empty(),
        joined(seq![part], sep) == part,
        parts.len() > 0 ==> joined(parts.push(part), sep) == joined(parts, sep) + sep + part,
{
    assert(parts.push(part).drop_last() =~= parts);
}

/// The characters of strings are those of each string, in order.
pub proof fn law_views_are_by_place(parts: Seq<String>)
    ensures
        views(parts).len() == parts.len(),
        forall|i: int| 0 <= i < parts.len() ==> #[trigger] views(parts)[i] == parts[i]@,
{
}

/// The characters of a prefix end at a character boundary.
proof fn lemma_prefix_ends_at_boundary(s: Seq<char>, k: int)
    requires
        0 <= k <= s.len(),
    ensures
        is_char_boundary(encode_utf8(s), encode_utf8(s.take(k)).len() as int),
        encode_utf8(s.take(k)).len() <= encode_utf8(s).len(),
    decreases s.len(),
{
    encode_utf8_valid_utf8(s);
    if k == 0 {
        assert(s.take(0) =~= Seq::empty());
    } else {
        let bytes = encode_utf8(s);
        let rest = s.drop_first();
        lemma_prefix_ends_at_boundary(rest, k - 1);
        encode_utf8_first_scalar(s);
        encode_utf8_valid_utf8(rest);
        assert(s.take(k).drop_first() =~= rest.take(k - 1));
        assert(s.take(k)[0] == s[0]);
        assert(pop_first_scalar(bytes) =~= encode_utf8(rest));
    }
}

/// A string is cut cleanly exactly where some number of its characters fill the limit, or all of
/// them do not reach it.
pub proof fn law_clean_cuts_keep_whole_characters(s: Seq<char>, limit: nat)
    ensures
        cuts_cleanly(s, limit) <==> encode_utf8(s).len() <= limit || exists|k: int|
            0 <= k <= s.len() && encode_utf8(#[trigger] s.take(k)).len() == limit,
{
    if cuts_cleanly(s, limit) && encode_utf8(s).len() > limit {
        law_truncated_is_a_fitting_prefix(s, limit);
        let t = truncated(s, limit);
        assert(t =~= s.take(t.len() as int));
        assert(encode_utf8(s.take(t.len() as int)).len() == limit);
    }
    if exists|k: int| 0 <= k <= s.len() && encode_utf8(#[trigger] s.take(k)).len() == limit {
        let k = choose|k: int|
            0 <= k <= s.len() && encode_utf8(#[trigger] s.take(k)).len() == limit;
        lemma_prefix_ends_at_boundary(s, k);
    }
}

/// Reading a decimal number back gives the number that was written.
pub proof fn law_decimal_reads_back(n: nat)
    ensures
        decimal_value(decimal(n)) == n,
    decreases n,
{
    reveal_with_fuel(decimal_value, 2);
    if n < 10 {
        assert(decimal(n).drop_last() =~= Seq::<char>::empty());
    } else {
        law_decimal_reads_back(n / 10);
        assert(decimal(n).drop_last() =~= decimal(n / 10));
    }
}

/// A number in decimal consists of digits alone, at least one, and starts with a zero only where
/// the number is zero.
pub proof fn law_decimal_is_canonical(n: nat)
    ensures
        decimal(n).len() > 0,
        forall|i: int| 0 <= i < decimal(n).len() ==> '0' <= #[trigger] decimal(n)[i] <= '9',
        decimal(n)[0] == '0' <==> n == 0,
        decimal(n)[0] == '0' ==> decimal(n).len() == 1,
    decreases n,
{
    if n >= 10 {
        law_decimal_is_canonical(n / 10);
    }
}

/// Cutting a string gives a prefix of it that fits the limit.
pub proof fn law_truncated_is_a_fitting_prefix(s: Seq<char>, limit: nat)
    requires
        cuts_cleanly(s, limit),
    ensures
        truncated(s, limit).is_prefix_of(s),
        encode_utf8(truncated(s, limit)).len() == if encode_utf8(s).len() <= limit {
            encode_utf8(s).len()
        } else {
            limit
        },
{
    let bytes = encode_utf8(s);
    encode_utf8_decode_utf8(s);
    encode_utf8_valid_utf8(s);
    if bytes.len() > limit {
        decode_utf8_split(bytes, limit as int);
        valid_utf8_split(bytes, limit as int);
        decode_utf8_encode_utf8(bytes.subrange(0, limit as int));
        let tail = decode_utf8(bytes.subrange(limit as int, bytes.len() as int));
        assert(s =~= truncated(s, limit) + tail);
        assert(truncated(s, limit) =~= s.subrange(0, truncated(s, limit).len() as int));
    } else {
        assert(s =~= s.subrange(0, s.len() as int));
    }
}

/// A string of ASCII characters can be cut anywhere, and cutting it keeps as many characters as
/// the limit has bytes.
pub proof fn law_ascii_is_cut_by_characters(s: Seq<char>, limit: nat)
    requires
        is_ascii_chars(s),
    ensures
        cuts_cleanly(s, limit),
        truncated(s, limit) == if s.len() <= limit {
            s
        } else {
            s.take(limit as int)
        },
{
    let bytes = encode_utf8(s);
    is_ascii_chars_encode_utf8(s);
    encode_utf8_valid_utf8(s);
    if s.len() > limit {
        is_ascii_chars_nat_bound(s);
        assert(bytes[limit as int] < 128u8);
        let b = bytes[limit as int];
        assert(b < 128u8 ==> !is_continuation_byte(b)) by (bit_vector);
        is_char_boundary_iff_not_is_continuation_byte(bytes, limit as int);
        law_truncated_is_a_fitting_prefix(s, limit);
        let t = truncated(s, limit);
        assert(t =~= s.take(t.len() as int));
        is_ascii_chars_encode_utf8(t);
    }
}

} // verus!
