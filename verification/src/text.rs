//! Verified text utilities shared by the candump line parsers and printers:
//! splitting on a separator, reading unsigned numbers written in decimal or
//! hexadecimal, and rendering numbers back to text.

use vstd::prelude::*;

verus! {

/// The pieces of `s` between occurrences of `sep`; empty pieces are kept, and
/// a string without separators yields itself as the single piece.
pub open spec fn split_on(s: Seq<char>, sep: char) -> Seq<Seq<char>>
    decreases s.len(),
{
    if s.len() == 0 {
        seq![Seq::<char>::empty()]
    } else if s[0] == sep {
        seq![Seq::<char>::empty()] + split_on(s.drop_first(), sep)
    } else {
        let rest = split_on(s.drop_first(), sep);
        seq![seq![s[0]] + rest[0]] + rest.drop_first()
    }
}

/// Splitting always yields at least one piece.
pub proof fn lemma_split_on_nonempty(s: Seq<char>, sep: char)
    ensures
        split_on(s, sep).len() >= 1,
    decreases s.len(),
{
    if s.len() > 0 {
        lemma_split_on_nonempty(s.drop_first(), sep);
    }
}

/// When the first separator sits at index `i`, splitting takes the prefix as
/// the first piece and splits the remainder.
proof fn lemma_split_on_first(s: Seq<char>, sep: char, i: int)
    requires
        0 <= i < s.len(),
        s[i] == sep,
        forall|j: int| 0 <= j < i ==> s[j] != sep,
    ensures
        split_on(s, sep) == seq![s.take(i)] + split_on(s.skip(i + 1), sep),
    decreases s.len(),
{
    lemma_split_on_nonempty(s.drop_first(), sep);
    if i == 0 {
        assert(s.take(0) =~= Seq::<char>::empty());
        assert(s.skip(1) =~= s.drop_first());
    } else {
        lemma_split_on_first(s.drop_first(), sep, i - 1);
        let rest = split_on(s.drop_first(), sep);
        assert(rest[0] == s.drop_first().take(i - 1));
        assert(seq![s[0]] + s.drop_first().take(i - 1) =~= s.take(i));
        assert(s.drop_first().skip(i) =~= s.skip(i + 1));
        assert(rest.drop_first() == split_on(s.drop_first().skip(i), sep));
        assert(split_on(s, sep) =~= seq![s.take(i)] + split_on(s.skip(i + 1), sep));
    }
}

/// A string without any separator is its own single piece.
proof fn lemma_split_on_none(s: Seq<char>, sep: char)
    requires
        forall|j: int| 0 <= j < s.len() ==> s[j] != sep,
    ensures
        split_on(s, sep) == seq![s],
    decreases s.len(),
{
    if s.len() == 0 {
        assert(s =~= Seq::<char>::empty());
    } else {
        lemma_split_on_none(s.drop_first(), sep);
        assert(seq![s[0]] + s.drop_first() =~= s);
        assert(split_on(s.drop_first(), sep).drop_first() =~= Seq::<Seq<char>>::empty());
        assert(split_on(s, sep) =~= seq![s]);
    }
}

/// Splits `s` at every occurrence of `sep`, keeping empty pieces.
pub fn split_str(s: &str, sep: char) -> (result: Vec<String>)
    ensures
        result@.len() == split_on(s@, sep).len(),
        forall|i: int| 0 <= i < result@.len() ==> result@[i]@ == split_on(s@, sep)[i],
{
    let n = s.unicode_len();
    let mut result: Vec<String> = Vec::new();
    let mut piece_start: usize = 0;
    let mut i: usize = 0;
    proof {
        assert(s@.skip(0) =~= s@);
        assert(result@.map_values(|p: String| p@) =~= Seq::<Seq<char>>::empty());
    }
    while i < n
        invariant
            n == s@.len(),
            piece_start <= i <= n,
            forall|j: int| piece_start <= j < i ==> s@[j] != sep,
            split_on(s@, sep) =~= result@.map_values(|p: String| p@) + split_on(
                s@.skip(piece_start as int),
                sep,
            ),
        decreases n - i,
    {
        if s.get_char(i) == sep {
            let piece = s.substring_char(piece_start, i).to_owned();
            proof {
                let tail = s@.skip(piece_start as int);
                lemma_split_on_first(tail, sep, i - piece_start);
                assert(tail.take(i - piece_start) =~= s@.subrange(piece_start as int, i as int));
                assert(tail.skip(i - piece_start + 1) =~= s@.skip(i + 1));
                assert((result@.push(piece)).map_values(|p: String| p@) =~= result@.map_values(
                    |p: String| p@,
                ).push(piece@));
            }
            result.push(piece);
            piece_start = i + 1;
        }
        i = i + 1;
    }
    let piece = s.substring_char(piece_start, n).to_owned();
    proof {
        let tail = s@.skip(piece_start as int);
        lemma_split_on_none(tail, sep);
        assert(tail =~= s@.subrange(piece_start as int, n as int));
        assert((result@.push(piece)).map_values(|p: String| p@) =~= result@.map_values(
            |p: String| p@,
        ).push(piece@));
        assert(result@.map_values(|p: String| p@) + seq![piece@] =~= (result@.push(
            piece,
        )).map_values(|p: String| p@));
    }
    result.push(piece);
    result
}

/// The numeric value of a digit character; 16 marks any other character.
pub open spec fn digit_val(c: char) -> nat {
    match c {
        '0' => 0,
        '1' => 1,
        '2' => 2,
        '3' => 3,
        '4' => 4,
        '5' => 5,
        '6' => 6,
        '7' => 7,
        '8' => 8,
        '9' => 9,
        'a' | 'A' => 10,
        'b' | 'B' => 11,
        'c' | 'C' => 12,
        'd' | 'D' => 13,
        'e' | 'E' => 14,
        'f' | 'F' => 15,
        _ => 16,
    }
}

/// Whether `c` is a digit of the given base.
pub open spec fn is_digit(c: char, base: nat) -> bool {
    digit_val(c) < base
}

/// The value of a digit string read in the given base.
pub open spec fn num_val(s: Seq<char>, base: nat) -> nat
    decreases s.len(),
{
    if s.len() == 0 {
        0
    } else {
        base * num_val(s.drop_last(), base) + digit_val(s.last())
    }
}

/// The digits of a number text after an optional single leading sign.
pub open spec fn sign_stripped(s: Seq<char>) -> Seq<char> {
    if s.len() > 0 && (s[0] == '+' || s[0] == '-') {
        s.drop_first()
    } else {
        s
    }
}

/// Whether a number text carries a negative sign.
pub open spec fn neg_signed(s: Seq<char>) -> bool {
    s.len() > 0 && s[0] == '-'
}

/// Whether `s` reads as an unsigned number in the given base bounded by
/// `max`: an optional single sign, then at least one digit, a value within
/// the bound, and a negative sign only in front of a zero value.
pub open spec fn num_text_ok(s: Seq<char>, base: nat, max: nat) -> bool {
    let digits = sign_stripped(s);
    digits.len() > 0 && (forall|i: int| 0 <= i < digits.len() ==> is_digit(digits[i], base))
        && num_val(digits, base) <= max && (neg_signed(s) ==> num_val(digits, base) == 0)
}

/// The value a number text denotes.
pub open spec fn num_text_val(s: Seq<char>, base: nat) -> nat {
    num_val(sign_stripped(s), base)
}

/// Appending one digit multiplies the value by the base and adds the digit.
proof fn lemma_num_val_step(s: Seq<char>, base: nat, k: int)
    requires
        0 <= k < s.len(),
    ensures
        num_val(s.take(k + 1), base) == base * num_val(s.take(k), base) + digit_val(s[k]),
{
    assert(s.take(k + 1).drop_last() =~= s.take(k));
    assert(s.take(k + 1).last() == s[k]);
}

/// Reading more digits never lowers the value.
proof fn lemma_num_val_take_le(s: Seq<char>, base: nat, k: int)
    requires
        1 <= base,
        0 <= k <= s.len(),
    ensures
        num_val(s.take(k), base) <= num_val(s, base),
    decreases s.len() - k,
{
    if k == s.len() {
        assert(s.take(k) =~= s);
    } else {
        lemma_num_val_step(s, base, k);
        vstd::arithmetic::mul::lemma_mul_inequality(
            1,
            base as int,
            num_val(s.take(k), base) as int,
        );
        lemma_num_val_take_le(s, base, k + 1);
    }
}

/// Returns the value of a digit character; 16 marks any other character.
fn digit_of(c: char) -> (r: u8)
    ensures
        r as nat == digit_val(c),
{
    match c {
        '0' => 0,
        '1' => 1,
        '2' => 2,
        '3' => 3,
        '4' => 4,
        '5' => 5,
        '6' => 6,
        '7' => 7,
        '8' => 8,
        '9' => 9,
        'a' | 'A' => 10,
        'b' | 'B' => 11,
        'c' | 'C' => 12,
        'd' | 'D' => 13,
        'e' | 'E' => 14,
        'f' | 'F' => 15,
        _ => 16,
    }
}

/// Reads an unsigned number out of `s` in the given base, accepting exactly
/// the texts that `num_text_ok` admits for the bound `max`.
pub fn parse_uint(s: &str, base: u64, max: u64) -> (result: Option<u64>)
    requires
        base == 10 || base == 16,
    ensures
        num_text_ok(s@, base as nat, max as nat) ==> result == Some::<u64>(
            num_text_val(s@, base as nat) as u64,
        ),
        !num_text_ok(s@, base as nat, max as nat) ==> result is None,
{
    let n = s.unicode_len();
    let mut i: usize = 0;
    let mut negative: bool = false;
    if n > 0 {
        let c0 = s.get_char(0);
        if c0 == '-' {
            negative = true;
            i = 1;
        } else if c0 == '+' {
            i = 1;
        }
    }
    if i >= n {
        return None;
    }
    let ghost digits = sign_stripped(s@);
    proof {
        assert(digits =~= s@.skip(i as int));
    }
    let mut acc: u64 = 0;
    let mut k: usize = i;
    while k < n
        invariant
            base == 10 || base == 16,
            i <= k <= n,
            n == s@.len(),
            i <= 1,
            digits == s@.skip(i as int),
            digits == sign_stripped(s@),
            negative == neg_signed(s@),
            forall|j: int| 0 <= j < k - i ==> is_digit(digits[j], base as nat),
            acc == num_val(digits.take(k - i), base as nat),
            acc <= max,
        decreases n - k,
    {
        let c = s.get_char(k);
        let d = digit_of(c);
        proof {
            assert(digits[k - i] == s@[k as int]);
            lemma_num_val_step(digits, base as nat, k - i);
        }
        if (d as u64) >= base {
            proof {
                assert(digits.len() == n - i);
                assert(0 <= k - i < digits.len());
                assert(!is_digit(digits[k - i], base as nat));
                assert(!num_text_ok(s@, base as nat, max as nat));
            }
            return None;
        }
        let wide: u128 = (acc as u128) * (base as u128) + (d as u128);
        if wide > (max as u128) {
            proof {
                lemma_num_val_take_le(digits, base as nat, k - i + 1);
                assert(num_val(digits.take(k - i + 1), base as nat) == wide);
                assert(num_val(digits, base as nat) > max);
                assert(!num_text_ok(s@, base as nat, max as nat));
            }
            return None;
        }
        acc = wide as u64;
        k = k + 1;
    }
    proof {
        assert(digits.take(n - i) =~= digits);
    }
    if negative && acc != 0 {
        return None;
    }
    Some(acc)
}

/// The views of a vector of string pieces.
pub open spec fn piece_views(pieces: Seq<String>) -> Seq<Seq<char>> {
    pieces.map_values(|p: String| p@)
}

/// The uppercase digit character of a value below 16.
pub open spec fn digit_char(d: nat) -> char {
    if d == 0 {
        '0'
    } else if d == 1 {
        '1'
    } else if d == 2 {
        '2'
    } else if d == 3 {
        '3'
    } else if d == 4 {
        '4'
    } else if d == 5 {
        '5'
    } else if d == 6 {
        '6'
    } else if d == 7 {
        '7'
    } else if d == 8 {
        '8'
    } else if d == 9 {
        '9'
    } else if d == 10 {
        'A'
    } else if d == 11 {
        'B'
    } else if d == 12 {
        'C'
    } else if d == 13 {
        'D'
    } else if d == 14 {
        'E'
    } else {
        'F'
    }
}

/// The `width` least-significant hexadecimal digits of `v`, most significant
/// digit first.
pub open spec fn hex_fixed(v: nat, width: nat) -> Seq<char>
    decreases width,
{
    if width == 0 {
        Seq::<char>::empty()
    } else {
        hex_fixed(v / 16, (width - 1) as nat) + seq![digit_char(v % 16)]
    }
}

/// The decimal digits of `n`, a single zero included.
pub open spec fn dec_digits(n: nat) -> Seq<char>
    decreases n,
{
    if n < 10 {
        seq![digit_char(n)]
    } else {
        dec_digits(n / 10) + seq![digit_char(n % 10)]
    }
}

/// The two uppercase hexadecimal digits of one byte.
pub open spec fn byte_hex(b: u8) -> Seq<char> {
    hex_fixed(b as nat, 2)
}

/// The payload bytes as two-digit groups joined by single spaces.
pub open spec fn bytes_hex_spaced(data: Seq<u8>) -> Seq<char>
    decreases data.len(),
{
    if data.len() == 0 {
        Seq::<char>::empty()
    } else if data.len() == 1 {
        byte_hex(data[0])
    } else {
        bytes_hex_spaced(data.drop_last()) + seq![' '] + byte_hex(data.last())
    }
}

/// The payload bytes as two-digit groups with no separator.
pub open spec fn bytes_hex_packed(data: Seq<u8>) -> Seq<char>
    decreases data.len(),
{
    if data.len() == 0 {
        Seq::<char>::empty()
    } else {
        bytes_hex_packed(data.drop_last()) + byte_hex(data.last())
    }
}

/// The one-character string of an uppercase digit.
fn digit_str(d: u8) -> (r: &'static str)
    requires
        d < 16,
    ensures
        r@ == seq![digit_char(d as nat)],
{
    proof {
        reveal_strlit("0");
        reveal_strlit("1");
        reveal_strlit("2");
        reveal_strlit("3");
        reveal_strlit("4");
        reveal_strlit("5");
        reveal_strlit("6");
        reveal_strlit("7");
        reveal_strlit("8");
        reveal_strlit("9");
        reveal_strlit("A");
        reveal_strlit("B");
        reveal_strlit("C");
        reveal_strlit("D");
        reveal_strlit("E");
        reveal_strlit("F");
    }
    let r = match d {
        0 => "0",
        1 => "1",
        2 => "2",
        3 => "3",
        4 => "4",
        5 => "5",
        6 => "6",
        7 => "7",
        8 => "8",
        9 => "9",
        10 => "A",
        11 => "B",
        12 => "C",
        13 => "D",
        14 => "E",
        _ => "F",
    };
    proof {
        assert(r@ =~= seq![digit_char(d as nat)]);
    }
    r
}

/// Appends the `width` least-significant hexadecimal digits of `v`.
pub fn append_hex_fixed(out: &mut String, v: u64, width: u16)
    ensures
        final(out)@ == old(out)@ + hex_fixed(v as nat, width as nat),
    decreases width,
{
    if width == 0 {
        proof {
            assert(old(out)@ + hex_fixed(v as nat, 0) =~= old(out)@);
        }
    } else {
        append_hex_fixed(out, v / 16, width - 1);
        let d = digit_str((v % 16) as u8);
        out.append(d);
        proof {
            assert((old(out)@ + hex_fixed(v as nat / 16, (width - 1) as nat)) + seq![
                digit_char(v as nat % 16),
            ] =~= old(out)@ + hex_fixed(v as nat, width as nat));
        }
    }
}

/// Appends the decimal digits of `n`.
pub fn append_decimal(out: &mut String, n: u64)
    ensures
        final(out)@ == old(out)@ + dec_digits(n as nat),
    decreases n,
{
    if n < 10 {
        out.append(digit_str(n as u8));
    } else {
        proof {
            assert(n as nat / 10 < n as nat) by (nonlinear_arith)
                requires
                    n >= 10,
            ;
        }
        append_decimal(out, n / 10);
        out.append(digit_str((n % 10) as u8));
        proof {
            assert((old(out)@ + dec_digits(n as nat / 10)) + seq![digit_char(n as nat % 10)]
                =~= old(out)@ + dec_digits(n as nat));
        }
    }
}

/// Appends one payload byte as two hexadecimal digits.
fn append_byte_hex(out: &mut String, b: u8)
    ensures
        final(out)@ == old(out)@ + byte_hex(b),
{
    out.append(digit_str(b / 16));
    out.append(digit_str(b % 16));
    proof {
        assert(b as nat / 16 / 16 == 0) by (nonlinear_arith)
            requires
                b < 256,
        ;
        assert(hex_fixed((b as nat / 16) / 16, 0) =~= Seq::<char>::empty());
        assert(hex_fixed(b as nat / 16, 1) =~= seq![digit_char(b as nat / 16 % 16)]);
        assert(b as nat / 16 % 16 == b as nat / 16) by (nonlinear_arith)
            requires
                b < 256,
        ;
        assert((old(out)@ + seq![digit_char(b as nat / 16)]) + seq![digit_char(b as nat % 16)]
            =~= old(out)@ + byte_hex(b));
    }
}

/// Appends the payload bytes as two-digit groups, space-separated or packed.
pub fn append_bytes_hex(out: &mut String, data: &[u8], spaced: bool)
    ensures
        final(out)@ == old(out)@ + (if spaced {
            bytes_hex_spaced(data@)
        } else {
            bytes_hex_packed(data@)
        }),
{
    let ghost target = if spaced {
        bytes_hex_spaced(data@)
    } else {
        bytes_hex_packed(data@)
    };
    let n = data.len();
    let mut i: usize = 0;
    proof {
        assert(data@.take(0) =~= Seq::<u8>::empty());
        assert(old(out)@ + bytes_hex_spaced(data@.take(0)) =~= old(out)@);
        assert(old(out)@ + bytes_hex_packed(data@.take(0)) =~= old(out)@);
    }
    while i < n
        invariant
            i <= n,
            n == data@.len(),
            out@ == old(out)@ + (if spaced {
                bytes_hex_spaced(data@.take(i as int))
            } else {
                bytes_hex_packed(data@.take(i as int))
            }),
        decreases n - i,
    {
        proof {
            assert(data@.take(i + 1).drop_last() =~= data@.take(i as int));
            assert(data@.take(i + 1).last() == data@[i as int]);
        }
        if spaced && i > 0 {
            proof {
                reveal_strlit(" ");
            }
            out.append(" ");
        }
        append_byte_hex(out, data[i]);
        proof {
            if spaced {
                if i > 0 {
                    assert(((old(out)@ + bytes_hex_spaced(data@.take(i as int))) + seq![' '])
                        + byte_hex(data@[i as int]) =~= old(out)@ + bytes_hex_spaced(
                        data@.take(i + 1),
                    ));
                } else {
                    assert(data@.take(1).len() == 1);
                    assert((old(out)@ + bytes_hex_spaced(data@.take(0))) + byte_hex(
                        data@[0],
                    ) =~= old(out)@ + bytes_hex_spaced(data@.take(1)));
                }
            } else {
                assert((old(out)@ + bytes_hex_packed(data@.take(i as int))) + byte_hex(
                    data@[i as int],
                ) =~= old(out)@ + bytes_hex_packed(data@.take(i + 1)));
            }
        }
        i = i + 1;
    }
    proof {
        assert(data@.take(n as int) =~= data@);
    }
}

/// The bytes denoted by consecutive two-character groups of `s`, reading as
/// many full groups as there are; a trailing lone character is ignored, and
/// a group that is not a number below 256 spoils the whole reading.
pub open spec fn hex_pairs(s: Seq<char>) -> Option<Seq<u8>>
    decreases s.len(),
{
    if s.len() < 2 {
        Some(Seq::<u8>::empty())
    } else if num_text_ok(s.take(2), 16, 255) {
        match hex_pairs(s.skip(2)) {
            Some(rest) => Some(seq![num_text_val(s.take(2), 16) as u8] + rest),
            None => None,
        }
    } else {
        None
    }
}

/// Reads the two-character groups of `s` from character `from` on.
pub fn parse_hex_groups(s: &str, from: usize) -> (result: Option<Vec<u8>>)
    requires
        from <= s@.len(),
    ensures
        hex_pairs(s@.skip(from as int)) is Some ==> (result matches Some(v) && v@ == hex_pairs(
            s@.skip(from as int),
        ).unwrap()),
        hex_pairs(s@.skip(from as int)) is None ==> result is None,
{
    let n = s.unicode_len();
    let mut acc: Vec<u8> = Vec::new();
    let mut i: usize = from;
    proof {
        assert(acc@ + hex_pairs(s@.skip(from as int)).unwrap() =~= hex_pairs(
            s@.skip(from as int),
        ).unwrap());
    }
    while n - i >= 2
        invariant
            from <= i <= n,
            n == s@.len(),
            hex_pairs(s@.skip(i as int)) is Some ==> (hex_pairs(s@.skip(from as int)) is Some
                && hex_pairs(s@.skip(from as int)).unwrap() == acc@ + hex_pairs(
                s@.skip(i as int),
            ).unwrap()),
            hex_pairs(s@.skip(i as int)) is None ==> hex_pairs(s@.skip(from as int)) is None,
        decreases n - i,
    {
        let group = s.substring_char(i, i + 2);
        proof {
            assert(s@.skip(i as int).take(2) =~= group@);
            assert(s@.skip(i as int).skip(2) =~= s@.skip(i + 2));
        }
        match parse_uint(group, 16, 255) {
            Some(b) => {
                proof {
                    let tail = s@.skip(i as int);
                    if hex_pairs(s@.skip(i + 2)) is Some {
                        assert(hex_pairs(tail).unwrap() =~= seq![
                            num_text_val(tail.take(2), 16) as u8,
                        ] + hex_pairs(s@.skip(i + 2)).unwrap());
                        assert(acc@ + hex_pairs(tail).unwrap() =~= acc@.push(b as u8) + hex_pairs(
                            s@.skip(i + 2),
                        ).unwrap());
                    }
                }
                acc.push(b as u8);
            },
            None => {
                return None;
            },
        }
        i = i + 2;
    }
    proof {
        assert(s@.skip(i as int).len() < 2);
        assert(acc@ + hex_pairs(s@.skip(i as int)).unwrap() =~= acc@);
    }
    Some(acc)
}

/// The bytes denoted by the pieces from index `from` on, each piece one
/// number below 256; a piece that is not such a number spoils the whole
/// reading.
pub open spec fn bytes_of_pieces(pieces: Seq<Seq<char>>, from: int) -> Option<Seq<u8>>
    decreases pieces.len() - from,
{
    if from < 0 || from >= pieces.len() {
        Some(Seq::<u8>::empty())
    } else if num_text_ok(pieces[from], 16, 255) {
        match bytes_of_pieces(pieces, from + 1) {
            Some(rest) => Some(seq![num_text_val(pieces[from], 16) as u8] + rest),
            None => None,
        }
    } else {
        None
    }
}

/// Reads the pieces from index `from` on as payload bytes.
pub fn parse_byte_pieces(pieces: &Vec<String>, from: usize) -> (result: Option<Vec<u8>>)
    ensures
        bytes_of_pieces(piece_views(pieces@), from as int) is Some ==> (result matches Some(v)
            && v@ == bytes_of_pieces(piece_views(pieces@), from as int).unwrap()),
        bytes_of_pieces(piece_views(pieces@), from as int) is None ==> result is None,
{
    let ghost views = piece_views(pieces@);
    let n = pieces.len();
    let mut acc: Vec<u8> = Vec::new();
    let mut i: usize = from;
    proof {
        if from >= n {
            assert(bytes_of_pieces(views, from as int) == Some(Seq::<u8>::empty()));
        }
        if bytes_of_pieces(views, i as int) is Some {
            assert(acc@ + bytes_of_pieces(views, i as int).unwrap() =~= bytes_of_pieces(
                views,
                i as int,
            ).unwrap());
        }
    }
    while i < n
        invariant
            from <= i,
            i <= n || i == from,
            n == pieces@.len(),
            views == piece_views(pieces@),
            bytes_of_pieces(views, i as int) is Some ==> (bytes_of_pieces(views, from as int)
                is Some && bytes_of_pieces(views, from as int).unwrap() == acc@ + bytes_of_pieces(
                views,
                i as int,
            ).unwrap()),
            bytes_of_pieces(views, i as int) is None ==> bytes_of_pieces(views, from as int)
                is None,
        decreases n - i,
    {
        proof {
            assert(views[i as int] == pieces@[i as int]@);
        }
        match parse_uint(pieces[i].as_str(), 16, 255) {
            Some(b) => {
                proof {
                    if bytes_of_pieces(views, i + 1) is Some {
                        assert(bytes_of_pieces(views, i as int).unwrap() =~= seq![
                            num_text_val(views[i as int], 16) as u8,
                        ] + bytes_of_pieces(views, i + 1).unwrap());
                        assert(acc@ + bytes_of_pieces(views, i as int).unwrap() =~= acc@.push(
                            b as u8,
                        ) + bytes_of_pieces(views, i + 1).unwrap());
                    }
                }
                acc.push(b as u8);
            },
            None => {
                return None;
            },
        }
        i = i + 1;
    }
    proof {
        assert(bytes_of_pieces(views, i as int) == Some(Seq::<u8>::empty()));
        assert(acc@ + Seq::<u8>::empty() =~= acc@);
    }
    Some(acc)
}

} // verus!
