//! Numbers in file names: every directory and arena file of a record is named by one.

use crate::error;
use crate::error::{IntError, ProbeError};
use crate::text;
use crate::utf8::is_utf8;
use vstd::prelude::*;
use vstd::utf8;

verus! {

/// The position of the last `byte` in `bytes`, or -1.
pub open spec fn last_position(bytes: Seq<u8>, byte: u8) -> int
    decreases bytes.len(),
{
    if bytes.len() == 0 {
        -1
    } else if bytes.last() == byte {
        bytes.len() - 1
    } else {
        last_position(bytes.drop_last(), byte)
    }
}

/// What `last_position` finds.
pub proof fn lemma_last_position(bytes: Seq<u8>, byte: u8)
    ensures
        -1 <= last_position(bytes, byte) < bytes.len(),
        last_position(bytes, byte) >= 0 ==> bytes[last_position(bytes, byte)] == byte,
        forall|i: int| last_position(bytes, byte) < i < bytes.len() ==> bytes[i] != byte,
    decreases bytes.len(),
{
    if bytes.len() > 0 && bytes.last() != byte {
        lemma_last_position(bytes.drop_last(), byte);
        assert forall|i: int| last_position(bytes, byte) < i < bytes.len() implies bytes[i]
            != byte by {
            if i < bytes.len() - 1 {
                assert(bytes.drop_last()[i] == bytes[i]);
            }
        }
    }
}

/// `last_position` is the only position with a `byte` and none behind it.
pub proof fn lemma_last_position_unique(bytes: Seq<u8>, byte: u8, p: int)
    requires
        -1 <= p < bytes.len(),
        p >= 0 ==> bytes[p] == byte,
        forall|i: int| p < i < bytes.len() ==> bytes[i] != byte,
    ensures
        last_position(bytes, byte) == p,
{
    lemma_last_position(bytes, byte);
}

/// The last component of a path: empty components and `.` do not count.
pub open spec fn last_component(path: Seq<u8>) -> Option<Seq<u8>>
    decreases path.len(),
{
    let slash = last_position(path, '/' as u8);
    let name = path.skip(slash + 1);
    if name.len() > 0 && name != seq!['.' as u8] {
        Some(name)
    } else if slash < 0 {
        None
    } else {
        proof {
            lemma_last_position(path, '/' as u8);
        }
        last_component(path.take(slash))
    }
}

/// The file name of a path: its last component, unless that leads to the parent directory.
pub open spec fn file_name(path: Seq<u8>) -> Option<Seq<u8>> {
    match last_component(path) {
        Some(name) => if name == seq!['.' as u8, '.' as u8] {
            None
        } else {
            Some(name)
        },
        None => None,
    }
}

/// A file name up to its last dot; a dot in front does not count.
pub open spec fn stem(name: Seq<u8>) -> Seq<u8> {
    let dot = last_position(name, '.' as u8);
    if dot <= 0 {
        name
    } else {
        name.take(dot)
    }
}

/// The stem of the file name of a path.
pub open spec fn file_stem(path: Seq<u8>) -> Option<Seq<u8>> {
    match file_name(path) {
        Some(name) => Some(stem(name)),
        None => None,
    }
}

/// Whether `byte` is an ASCII digit.
pub open spec fn is_digit(byte: u8) -> bool {
    '0' as u8 <= byte <= '9' as u8
}

/// The number that `digits` denote, or what is wrong with the first digit that spoils it.
pub open spec fn digits_value(digits: Seq<u8>) -> Result<usize, IntError>
    decreases digits.len(),
{
    if digits.len() == 0 {
        Ok(0)
    } else {
        match digits_value(digits.drop_last()) {
            Err(e) => Err(e),
            Ok(front) => if !is_digit(digits.last()) {
                Err(IntError::InvalidDigit)
            } else if front * 10 + (digits.last() - '0' as u8) > usize::MAX {
                Err(IntError::PosOverflow)
            } else {
                Ok((front * 10 + (digits.last() - '0' as u8)) as usize)
            },
        }
    }
}

/// The unsigned number that `bytes` denote: digits, with an optional plus sign in front.
pub open spec fn number_of(bytes: Seq<u8>) -> Result<usize, IntError> {
    if bytes.len() == 0 {
        Err(IntError::Empty)
    } else if bytes[0] != '+' as u8 {
        digits_value(bytes)
    } else if bytes.len() == 1 {
        Err(IntError::InvalidDigit)
    } else {
        digits_value(bytes.skip(1))
    }
}

/// The number that names the file or directory at `path`.
pub open spec fn numeric_name(path: Seq<u8>) -> Result<usize, ProbeError> {
    match file_stem(path) {
        None => Err(ProbeError::MissingValue("File has no stem")),
        Some(stem) => if !utf8::valid_utf8(stem) {
            Err(
                error::in_context(
                    "Failed to parse filename to integer",
                    ProbeError::MissingValue("Unable to parse as Unicode"),
                ),
            )
        } else {
            match number_of(stem) {
                Ok(number) => Ok(number),
                Err(e) => Err(ProbeError::ParseIntError(e)),
            }
        },
    }
}

/// Finds the last `byte` in `bytes`.
fn find_last(bytes: &[u8], byte: u8) -> (res: Option<usize>)
    ensures
        match res {
            Some(p) => last_position(bytes@, byte) == p && p < bytes@.len(),
            None => last_position(bytes@, byte) == -1,
        },
{
    let mut i: usize = bytes.len();
    while i > 0
        invariant
            i <= bytes@.len(),
            forall|j: int| i <= j < bytes@.len() ==> bytes@[j] != byte,
        decreases i,
    {
        i = i - 1;
        if bytes[i] == byte {
            proof {
                lemma_last_position_unique(bytes@, byte, i as int);
            }
            return Some(i);
        }
    }
    proof {
        lemma_last_position_unique(bytes@, byte, -1);
    }
    None
}

/// Whether `name` is a single dot.
fn is_dot(name: &[u8]) -> (res: bool)
    ensures
        res == (name@ == seq!['.' as u8]),
{
    let res = name.len() == 1 && name[0] == ('.' as u8);
    assert(res ==> name@ =~= seq!['.' as u8]);
    res
}

/// Whether `name` is two dots.
fn is_dot_dot(name: &[u8]) -> (res: bool)
    ensures
        res == (name@ == seq!['.' as u8, '.' as u8]),
{
    let res = name.len() == 2 && name[0] == ('.' as u8) && name[1] == ('.' as u8);
    assert(res ==> name@ =~= seq!['.' as u8, '.' as u8]);
    res
}

/// The contents of an optional slice.
pub open spec fn slice_view(slice: Option<&[u8]>) -> Option<Seq<u8>> {
    match slice {
        Some(slice) => Some(slice@),
        None => None,
    }
}

/// Finds the stem of the file name of a path.
fn find_file_stem(path: &[u8]) -> (res: Option<&[u8]>)
    ensures
        slice_view(res) == file_stem(path@),
{
    let mut end: usize = path.len();
    assert(path@.take(end as int) =~= path@);
    loop
        invariant
            end <= path@.len(),
            last_component(path@) == last_component(path@.take(end as int)),
        decreases end,
    {
        let front = &path[0..end];
        assert(front@ =~= path@.take(end as int));
        let slash = find_last(front, '/' as u8);
        let start = match slash {
            Some(p) => p + 1,
            None => 0,
        };
        let name = &front[start..end];
        assert(name@ =~= front@.skip(last_position(front@, '/' as u8) + 1));
        if name.len() > 0 && !is_dot(name) {
            if is_dot_dot(name) {
                return None;
            }
            return match find_last(name, '.' as u8) {
                Some(dot) => if dot == 0 {
                    Some(name)
                } else {
                    let stem = &name[0..dot];
                    assert(stem@ =~= name@.take(dot as int));
                    Some(stem)
                },
                None => Some(name),
            };
        }
        match slash {
            Some(p) => {
                assert(front@.take(p as int) =~= path@.take(p as int));
                end = p;
            },
            None => {
                return None;
            },
        }
    }
}

/// An error in a prefix of the digits is an error of the digits.
proof fn lemma_digits_error(digits: Seq<u8>, k: int)
    requires
        0 <= k <= digits.len(),
        digits_value(digits.take(k)) is Err,
    ensures
        digits_value(digits) == digits_value(digits.take(k)),
    decreases digits.len() - k,
{
    if k == digits.len() {
        assert(digits.take(k) =~= digits);
    } else {
        assert(digits.take(k + 1).drop_last() =~= digits.take(k));
        lemma_digits_error(digits, k + 1);
    }
}

/// Reads a run of digits.
fn parse_digits(digits: &[u8]) -> (res: Result<usize, IntError>)
    ensures
        res == digits_value(digits@),
{
    let mut acc: usize = 0;
    let mut i: usize = 0;
    while i < digits.len()
        invariant
            i <= digits@.len(),
            digits_value(digits@.take(i as int)) == Ok::<usize, IntError>(acc),
        decreases digits@.len() - i,
    {
        let byte = digits[i];
        let ghost front = digits@.take(i + 1);
        assert(front.drop_last() =~= digits@.take(i as int));
        assert(front.last() == byte);
        if byte < ('0' as u8) || byte > ('9' as u8) {
            proof {
                lemma_digits_error(digits@, i + 1);
            }
            return Err(IntError::InvalidDigit);
        }
        let digit = (byte - ('0' as u8)) as usize;
        if acc > (usize::MAX - digit) / 10 {
            proof {
                lemma_digits_error(digits@, i + 1);
            }
            return Err(IntError::PosOverflow);
        }
        acc = acc * 10 + digit;
        i = i + 1;
    }
    assert(digits@.take(i as int) =~= digits@);
    Ok(acc)
}

/// Reads an unsigned number: digits, with an optional plus sign in front.
pub fn parse_usize(bytes: &[u8]) -> (res: Result<usize, IntError>)
    ensures
        res == number_of(bytes@),
{
    let len = bytes.len();
    if len == 0 {
        Err(IntError::Empty)
    } else if bytes[0] != ('+' as u8) {
        parse_digits(bytes)
    } else if len == 1 {
        Err(IntError::InvalidDigit)
    } else {
        let digits = &bytes[1..len];
        assert(digits@ =~= bytes@.skip(1));
        parse_digits(digits)
    }
}

/// Gets the file stem from the bytes of a path and returns it parsed as an integer.
///
/// Errors if the path has no file stem, the file stem isn't valid UTF-8, or the filename can't be
/// parsed as an integer.
pub fn filename_numeric(path: &[u8]) -> (res: Result<usize, ProbeError>)
    ensures
        res == numeric_name(path@),
{
    match find_file_stem(path) {
        None => Err(ProbeError::MissingValue("File has no stem")),
        Some(stem) => if !is_utf8(stem) {
            Err(
                ProbeError::Context {
                    context: "Failed to parse filename to integer",
                    inner: Box::new(ProbeError::MissingValue("Unable to parse as Unicode")),
                },
            )
        } else {
            match parse_usize(stem) {
                Ok(number) => Ok(number),
                Err(e) => Err(ProbeError::ParseIntError(e)),
            }
        },
    }
}

/// Nothing, or a dot and what follows the last dot of a file name.
pub open spec fn is_extension(suffix: Seq<u8>) -> bool {
    suffix.len() > 0 ==> {
        &&& suffix[0] == '.' as u8
        &&& forall|i: int|
            0 < i < suffix.len() ==> suffix[i] != '.' as u8 && suffix[i] != '/' as u8
    }
}

/// The digits of a decimal notation, as bytes.
proof fn lemma_decimal_bytes(n: nat)
    ensures
        utf8::is_ascii_chars(text::decimal(n)),
        text::decimal(n).len() > 0,
        forall|i: int|
            0 <= i < text::decimal(n).len() ==> is_digit((#[trigger] text::decimal(n)[i]) as u8),
    decreases n,
{
    if n >= 10 {
        lemma_decimal_bytes(n / 10);
    }
}

/// Reading the decimal notation of a number gives the number.
proof fn lemma_decimal_value(n: nat, bytes: Seq<u8>)
    requires
        n <= usize::MAX,
        bytes.len() == text::decimal(n).len(),
        forall|i: int| 0 <= i < bytes.len() ==> #[trigger] bytes[i] == text::decimal(n)[i] as u8,
    ensures
        digits_value(bytes) == Ok::<usize, IntError>(n as usize),
    decreases n,
{
    lemma_decimal_bytes(n);
    let front = bytes.drop_last();
    if n < 10 {
        assert(digits_value(front) == Ok::<usize, IntError>(0));
        assert(bytes.last() == text::digit_char(n) as u8);
    } else {
        let short = text::decimal(n / 10);
        assert forall|i: int| 0 <= i < front.len() implies #[trigger] front[i]
            == short[i] as u8 by {
            assert(front[i] == bytes[i]);
            assert(text::decimal(n)[i] == short[i]);
        }
        lemma_decimal_value(n / 10, front);
        assert(bytes.last() == bytes[bytes.len() - 1]);
        assert(bytes.last() == text::digit_char(n % 10) as u8);
    }
}

/// A number is the name of the path that ends in its decimal notation, in any directory and with
/// or without an extension.
pub proof fn law_decimal_name(directory: Seq<u8>, n: usize, extension: Seq<u8>)
    requires
        directory.len() > 0 ==> directory.last() == '/' as u8,
        is_extension(extension),
    ensures
        numeric_name(directory + utf8::encode_utf8(text::decimal(n as nat)) + extension) == Ok::<
            usize,
            ProbeError,
        >(n),
{
    let digits = utf8::encode_utf8(text::decimal(n as nat));
    let name = digits + extension;
    let path = directory + digits + extension;
    lemma_decimal_bytes(n as nat);
    utf8::is_ascii_chars_encode_utf8(text::decimal(n as nat));
    utf8::encode_utf8_valid_utf8(text::decimal(n as nat));
    assert forall|i: int| 0 <= i < digits.len() implies is_digit(#[trigger] digits[i])
        && digits[i] == text::decimal(n as nat)[i] as u8 by {
        assert(text::decimal(n as nat)[i] as u8 == digits[i]);
    }
    lemma_decimal_value(n as nat, digits);

    let slash = directory.len() - 1;
    assert forall|i: int| slash < i < path.len() implies path[i] != '/' as u8 by {
        let k = i - directory.len();
        if k < digits.len() {
            assert(path[i] == digits[k]);
        } else {
            assert(path[i] == extension[k - digits.len()]);
        }
    }
    lemma_last_position_unique(path, '/' as u8, slash);
    assert(path.skip(slash + 1) =~= name);
    assert(name[0] == digits[0]);
    assert(file_name(path) == Some(name));

    let dot = if extension.len() == 0 {
        -1
    } else {
        digits.len() as int
    };
    assert forall|i: int| dot < i < name.len() implies name[i] != '.' as u8 by {
        if i < digits.len() {
            assert(name[i] == digits[i]);
        } else {
            assert(name[i] == extension[i - digits.len()]);
        }
    }
    lemma_last_position_unique(name, '.' as u8, dot);
    assert(stem(name) =~= digits);
}

/// The file name of a path is what stands behind its last slash, in any directory. Slashes and
/// single dots at the end do not count, and two dots are the name of no file.
#[verifier::spinoff_prover]
#[verifier::rlimit(30)]
pub proof fn law_file_name(directory: Seq<u8>, name: Seq<u8>)
    requires
        directory.len() > 0 ==> directory.last() == '/' as u8,
        name.len() > 0,
        forall|i: int| 0 <= i < name.len() ==> name[i] != '/' as u8,
    ensures
        file_name(seq![]) is None,
        file_name(directory + name + seq!['/' as u8]) == file_name(directory + name),
        file_name(directory + seq!['/' as u8]) == file_name(directory),
        file_name(directory + name) == (if name == seq!['.' as u8] {
            file_name(directory)
        } else if name == seq!['.' as u8, '.' as u8] {
            None
        } else {
            Some(name)
        }),
{
    let empty: Seq<u8> = seq![];
    assert(empty.skip(0) =~= empty);
    assert(last_component(empty) is None);
    lemma_slash_ignored(directory + name);
    lemma_slash_ignored(directory);
    let path = directory + name;
    let slash = directory.len() - 1;
    assert forall|i: int| slash < i < path.len() implies path[i] != '/' as u8 by {
        assert(path[i] == name[i - directory.len()]);
    }
    lemma_last_position_unique(path, '/' as u8, slash);
    assert(path.skip(slash + 1) =~= name);
    if name == seq!['.' as u8] {
        if directory.len() == 0 {
            assert(directory =~= empty);
        } else {
            let parent = directory.take(slash);
            assert(path.take(slash) =~= parent);
            assert(directory =~= parent + seq!['/' as u8]);
            lemma_slash_ignored(parent);
        }
    }
}

/// A slash at the end of a path does not count.
proof fn lemma_slash_ignored(path: Seq<u8>)
    ensures
        last_component(path + seq!['/' as u8]) == last_component(path),
{
    let longer = path + seq!['/' as u8];
    lemma_last_position_unique(longer, '/' as u8, path.len() as int);
    assert(longer.skip(path.len() as int + 1) =~= seq![]);
    assert(longer.take(path.len() as int) =~= path);
}

/// The stem of a file name is what stands in front of its last dot; a name without a dot, or with
/// none but in front, is its own stem.
pub proof fn law_stem(front: Seq<u8>, extension: Seq<u8>, name: Seq<u8>)
    requires
        front.len() > 0,
        forall|i: int| 0 <= i < extension.len() ==> extension[i] != '.' as u8,
        forall|i: int| 1 <= i < name.len() ==> name[i] != '.' as u8,
    ensures
        stem(front + seq!['.' as u8] + extension) == front,
        stem(name) == name,
{
    let full = front + seq!['.' as u8] + extension;
    assert forall|i: int| front.len() < i < full.len() implies full[i] != '.' as u8 by {
        assert(full[i] == extension[i - front.len() - 1]);
    }
    lemma_last_position_unique(full, '.' as u8, front.len() as int);
    assert(full.take(front.len() as int) =~= front);
    lemma_last_position(name, '.' as u8);
}

/// A number is read digit by digit: one more digit behind a number makes ten times the number plus
/// the digit, unless that is too large; anything else in its place is no digit, and what is wrong
/// with the front of a number is wrong with the number.
pub proof fn law_number_digit_by_digit(front: Seq<u8>, byte: u8)
    requires
        front.len() > 0,
        front != seq!['+' as u8],
    ensures
        number_of(front.push(byte)) == (match number_of(front) {
            Err(e) => Err::<usize, IntError>(e),
            Ok(number) => if !('0' as u8 <= byte <= '9' as u8) {
                Err(IntError::InvalidDigit)
            } else if number * 10 + (byte - '0' as u8) > usize::MAX {
                Err(IntError::PosOverflow)
            } else {
                Ok((number * 10 + (byte - '0' as u8)) as usize)
            },
        }),
{
    let full = front.push(byte);
    assert(full.drop_last() =~= front);
    if front[0] == '+' as u8 {
        if front.len() == 1 {
            assert(front =~= seq!['+' as u8]);
        }
        assert(full.skip(1).drop_last() =~= front.skip(1));
        assert(full.skip(1).last() == byte);
    }
}

/// How a number begins: nothing is no number, a single digit is its value, and a plus sign counts
/// for nothing in front of a digit and is no number by itself.
pub proof fn law_number_begins(byte: u8)
    ensures
        number_of(seq![]) == Err::<usize, IntError>(IntError::Empty),
        number_of(seq!['+' as u8]) == Err::<usize, IntError>(IntError::InvalidDigit),
        byte != '+' as u8 ==> number_of(seq![byte]) == (if '0' as u8 <= byte <= '9' as u8 {
            Ok::<usize, IntError>((byte - '0' as u8) as usize)
        } else {
            Err(IntError::InvalidDigit)
        }),
        number_of(seq!['+' as u8, byte]) == (if '0' as u8 <= byte <= '9' as u8 {
            Ok::<usize, IntError>((byte - '0' as u8) as usize)
        } else {
            Err(IntError::InvalidDigit)
        }),
{
    let one = seq![byte];
    assert(one.drop_last() =~= seq![]);
    assert(seq!['+' as u8, byte].skip(1) =~= one);
    reveal_with_fuel(digits_value, 2);
}

/// The number of a path is that of the stem of its file name; each way in which there is none has
/// an error of its own.
pub proof fn law_numeric_name(path: Seq<u8>)
    ensures
        match file_name(path) {
            None => numeric_name(path) == Err::<usize, ProbeError>(
                ProbeError::MissingValue("File has no stem"),
            ),
            Some(name) => if !utf8::valid_utf8(stem(name)) {
                numeric_name(path) == Err::<usize, ProbeError>(
                    ProbeError::Context {
                        context: "Failed to parse filename to integer",
                        inner: Box::new(ProbeError::MissingValue("Unable to parse as Unicode")),
                    },
                )
            } else {
                match number_of(stem(name)) {
                    Ok(number) => numeric_name(path) == Ok::<usize, ProbeError>(number),
                    Err(e) => numeric_name(path) == Err::<usize, ProbeError>(
                        ProbeError::ParseIntError(e),
                    ),
                }
            },
        },
        file_stem(path) == (match file_name(path) {
            Some(name) => Some(stem(name)),
            None => None,
        }),
{
}

} // verus!
