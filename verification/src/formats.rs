//! File formats by extension, and what a firmware file's name tells.

use vstd::prelude::*;
use vstd::string::StringExecFns;

use crate::text;

verus! {

/// Output format, inferred from a file extension or the stdout mode.
#[derive(Debug, Clone, Copy, PartialEq, Eq, Structural)]
pub enum OutputFormat {
    Csv,
    Jsonl,
    Xlsx,
    Parquet,
    /// JSON Lines written to stdout.
    JsonStdout,
    /// Tab-separated written to stdout.
    TabStdout,
}

/// Input format, inferred from a file extension.
#[derive(Debug, Clone, Copy, PartialEq, Eq, Structural)]
pub enum InputFormat {
    Cfn,
    Csv,
    Jsonl,
    Xlsx,
    Parquet,
}

/// Why a file extension is refused.
#[derive(Debug)]
pub enum FormatError {
    /// Parquet is left out of this build.
    ParquetDisabled,
    /// No output format has this extension.
    UnknownOutput(String),
    /// No input format has this extension.
    UnsupportedInput,
}

/// The extensions that can be written, as a message lists them.
pub open spec fn output_list(parquet: bool) -> Seq<char> {
    if parquet {
        ".csv, .jsonl, .xlsx, or .parquet"@
    } else {
        ".csv, .jsonl, or .xlsx"@
    }
}

/// The extensions that can be written, as a message lists them.
pub fn supported_output_extensions(parquet: bool) -> (r: &'static str)
    ensures
        r@ == output_list(parquet),
{
    if parquet {
        ".csv, .jsonl, .xlsx, or .parquet"
    } else {
        ".csv, .jsonl, or .xlsx"
    }
}

impl FormatError {
    /// The message of the error, in a program of the given name.
    pub open spec fn described(self, program: Seq<char>, parquet: bool) -> Seq<char> {
        match self {
            FormatError::ParquetDisabled => "Parquet support is disabled. Rebuild "@ + program
                + " with `--features parquet`."@,
            FormatError::UnknownOutput(extension) => "Unknown output extension '."@ + extension@
                + "'. Use "@ + output_list(parquet) + "."@,
            FormatError::UnsupportedInput =>
            "Unsupported input file format. Use .cfn, .csv, .jsonl, .xlsx"@ + if parquet {
                ", or .parquet"@
            } else {
                ""@
            } + "."@,
        }
    }

    /// The message of the error, in a program of the given name.
    pub fn describe(&self, program: &str, parquet: bool) -> (r: String)
        ensures
            r@ == self.described(program@, parquet),
    {
        match self {
            FormatError::ParquetDisabled => {
                let mut out = text::joined("Parquet support is disabled. Rebuild ", program);
                out.append(" with `--features parquet`.");
                out
            },
            FormatError::UnknownOutput(extension) => {
                let mut out = text::joined("Unknown output extension '.", extension.as_str());
                out.append("'. Use ");
                out.append(supported_output_extensions(parquet));
                out.append(".");
                out
            },
            FormatError::UnsupportedInput => {
                let mut out = text::joined(
                    "Unsupported input file format. Use .cfn, .csv, .jsonl, .xlsx",
                    if parquet {
                        ", or .parquet"
                    } else {
                        ""
                    },
                );
                out.append(".");
                out
            },
        }
    }
}

/// Whether two texts are equal.
fn same(a: &str, b: &str) -> (r: bool)
    ensures
        r == (a@ == b@),
{
    a.to_owned() == b.to_owned()
}

impl OutputFormat {
    /// The format of an extension that is given in lower case, if it has one.
    pub open spec fn of_extension(extension: Seq<char>) -> Option<OutputFormat> {
        if extension == "csv"@ {
            Some(OutputFormat::Csv)
        } else if extension == "jsonl"@ || extension == "ndjson"@ {
            Some(OutputFormat::Jsonl)
        } else if extension == "xlsx"@ {
            Some(OutputFormat::Xlsx)
        } else if extension == "parquet"@ || extension == "parq"@ {
            Some(OutputFormat::Parquet)
        } else {
            None
        }
    }

    /// The format that is written for an extension that is given in lower case.
    pub fn from_extension(extension: &str, parquet: bool) -> (r: Result<OutputFormat, FormatError>)
        ensures
            match OutputFormat::of_extension(extension@) {
                Some(OutputFormat::Parquet) => if parquet {
                    r == Ok::<OutputFormat, FormatError>(OutputFormat::Parquet)
                } else {
                    r == Err::<OutputFormat, FormatError>(FormatError::ParquetDisabled)
                },
                Some(format) => r == Ok::<OutputFormat, FormatError>(format),
                None => r is Err && r->Err_0 is UnknownOutput && r->Err_0->UnknownOutput_0@
                    == extension@,
            },
    {
        if same(extension, "csv") {
            Ok(OutputFormat::Csv)
        } else if same(extension, "jsonl") || same(extension, "ndjson") {
            Ok(OutputFormat::Jsonl)
        } else if same(extension, "xlsx") {
            Ok(OutputFormat::Xlsx)
        } else if same(extension, "parquet") || same(extension, "parq") {
            if parquet {
                Ok(OutputFormat::Parquet)
            } else {
                Err(FormatError::ParquetDisabled)
            }
        } else {
            Err(FormatError::UnknownOutput(extension.to_owned()))
        }
    }

    /// The format that is written for a path's extension, in whatever case; a
    /// path without one has the empty extension.
    pub fn from_path(extension: Option<&str>, parquet: bool) -> (r: Result<
        OutputFormat,
        FormatError,
    >)
        ensures
            ({
                let lowercased = text::lowered(extension_text(extension));
                match OutputFormat::of_extension(lowercased) {
                    Some(OutputFormat::Parquet) => if parquet {
                        r == Ok::<OutputFormat, FormatError>(OutputFormat::Parquet)
                    } else {
                        r == Err::<OutputFormat, FormatError>(FormatError::ParquetDisabled)
                    },
                    Some(format) => r == Ok::<OutputFormat, FormatError>(format),
                    None => r is Err && r->Err_0 is UnknownOutput && r->Err_0->UnknownOutput_0@
                        == lowercased,
                }
            }),
    {
        let lowercased = text::to_lowercase(
            match extension {
                Some(e) => e,
                None => "",
            },
        );
        OutputFormat::from_extension(lowercased.as_str(), parquet)
    }
}

/// An extension as text: empty where there is none.
pub open spec fn extension_text(extension: Option<&str>) -> Seq<char> {
    match extension {
        Some(e) => e@,
        None => ""@,
    }
}

impl InputFormat {
    /// The format of an extension that is given in lower case, if it has one.
    pub open spec fn of_extension(extension: Seq<char>) -> Option<InputFormat> {
        if extension == "cfn"@ {
            Some(InputFormat::Cfn)
        } else if extension == "csv"@ {
            Some(InputFormat::Csv)
        } else if extension == "jsonl"@ || extension == "ndjson"@ {
            Some(InputFormat::Jsonl)
        } else if extension == "xlsx"@ {
            Some(InputFormat::Xlsx)
        } else if extension == "parquet"@ || extension == "parq"@ {
            Some(InputFormat::Parquet)
        } else {
            None
        }
    }

    /// The format that is read for an extension that is given in lower case.
    pub fn from_extension(extension: &str, parquet: bool) -> (r: Result<InputFormat, FormatError>)
        ensures
            r == match InputFormat::of_extension(extension@) {
                Some(InputFormat::Parquet) => if parquet {
                    Ok::<InputFormat, FormatError>(InputFormat::Parquet)
                } else {
                    Err(FormatError::ParquetDisabled)
                },
                Some(format) => Ok(format),
                None => Err(FormatError::UnsupportedInput),
            },
    {
        if same(extension, "cfn") {
            Ok(InputFormat::Cfn)
        } else if same(extension, "csv") {
            Ok(InputFormat::Csv)
        } else if same(extension, "jsonl") || same(extension, "ndjson") {
            Ok(InputFormat::Jsonl)
        } else if same(extension, "xlsx") {
            Ok(InputFormat::Xlsx)
        } else if same(extension, "parquet") || same(extension, "parq") {
            if parquet {
                Ok(InputFormat::Parquet)
            } else {
                Err(FormatError::ParquetDisabled)
            }
        } else {
            Err(FormatError::UnsupportedInput)
        }
    }

    /// The format that is read for a path's extension, in whatever case; a path
    /// without one has the empty extension.
    pub fn from_path(extension: Option<&str>, parquet: bool) -> (r: Result<
        InputFormat,
        FormatError,
    >)
        ensures
            r == match InputFormat::of_extension(text::lowered(extension_text(extension))) {
                Some(InputFormat::Parquet) => if parquet {
                    Ok::<InputFormat, FormatError>(InputFormat::Parquet)
                } else {
                    Err(FormatError::ParquetDisabled)
                },
                Some(format) => Ok(format),
                None => Err(FormatError::UnsupportedInput),
            },
    {
        let lowercased = text::to_lowercase(
            match extension {
                Some(e) => e,
                None => "",
            },
        );
        InputFormat::from_extension(lowercased.as_str(), parquet)
    }

    /// Whether two texts are equal but for the case of ASCII letters.
    pub open spec fn alike(a: Seq<char>, b: Seq<char>) -> bool {
        a.map_values(|c: char| text::ascii_lower(c)) == b.map_values(
            |c: char| text::ascii_lower(c),
        )
    }

    /// The format that a file is imported as, by its extension in whatever case
    /// of the ASCII letters: CSV where it is no other's.
    pub open spec fn imported(extension: Seq<char>) -> InputFormat {
        if InputFormat::alike(extension, "cfn"@) {
            InputFormat::Cfn
        } else if InputFormat::alike(extension, "xlsx"@) {
            InputFormat::Xlsx
        } else if InputFormat::alike(extension, "parquet"@) || InputFormat::alike(
            extension,
            "parq"@,
        ) {
            InputFormat::Parquet
        } else if InputFormat::alike(extension, "jsonl"@) {
            InputFormat::Jsonl
        } else {
            InputFormat::Csv
        }
    }

    /// The format that a file is imported as, by its extension.
    pub fn for_import(extension: &str, parquet: bool) -> (r: Result<InputFormat, FormatError>)
        ensures
            r == if InputFormat::imported(extension@) == InputFormat::Parquet && !parquet {
                Err::<InputFormat, FormatError>(FormatError::ParquetDisabled)
            } else {
                Ok(InputFormat::imported(extension@))
            },
    {
        if text::eq_ignore_ascii_case(extension, "cfn") {
            Ok(InputFormat::Cfn)
        } else if text::eq_ignore_ascii_case(extension, "xlsx") {
            Ok(InputFormat::Xlsx)
        } else if text::eq_ignore_ascii_case(extension, "parquet") || text::eq_ignore_ascii_case(
            extension,
            "parq",
        ) {
            if parquet {
                Ok(InputFormat::Parquet)
            } else {
                Err(FormatError::ParquetDisabled)
            }
        } else if text::eq_ignore_ascii_case(extension, "jsonl") {
            Ok(InputFormat::Jsonl)
        } else {
            Ok(InputFormat::Csv)
        }
    }
}

/// The first place of `byte`, if it occurs.
pub open spec fn first_byte(bytes: Seq<u8>, byte: u8) -> Option<int>
    decreases bytes.len(),
{
    if bytes.len() == 0 {
        None
    } else {
        match first_byte(bytes.drop_last(), byte) {
            Some(i) => Some(i),
            None => if bytes.last() == byte {
                Some(bytes.len() - 1)
            } else {
                None
            },
        }
    }
}

/// The ASCII digits among `bytes`.
pub open spec fn digits_of(bytes: Seq<u8>) -> Seq<u8> {
    bytes.filter(|b: u8| 48 <= b <= 57)
}

/// A string of digits as a number.
pub open spec fn number(digits: Seq<u8>) -> nat
    decreases digits.len(),
{
    if digits.len() == 0 {
        0
    } else {
        number(digits.drop_last()) * 10 + (digits.last() - 48) as nat
    }
}

/// The version that the digits among `bytes` make: none where there is no
/// digit, or the number does not fit in 16 bits.
pub open spec fn version_in(bytes: Seq<u8>) -> Option<u16> {
    let digits = digits_of(bytes);
    if digits.len() == 0 || number(digits) > 65535 {
        None
    } else {
        Some(number(digits) as u16)
    }
}

/// The version in a file stem that reads `lowercased` in lower case: the digits
/// behind the first "v".
pub open spec fn version_after_v(stem: Seq<u8>, lowercased: Seq<u8>) -> Option<u16> {
    match first_byte(lowercased, 118) {
        Some(at) => version_in(stem.subrange(at + 1, stem.len() as int)),
        None => None,
    }
}

/// Whether the text behind the first "v" can be cut off.
pub open spec fn cuttable(stem: Seq<u8>, lowercased: Seq<u8>) -> bool {
    first_byte(lowercased, 118) matches Some(at) ==> at + 1 <= stem.len() && vstd::utf8::is_char_boundary(
        stem,
        at + 1,
    )
}

fn find_byte(bytes: &[u8], byte: u8) -> (r: Option<usize>)
    ensures
        match r {
            Some(at) => first_byte(bytes@, byte) == Some(at as int) && at < bytes.len(),
            None => first_byte(bytes@, byte) is None,
        },
{
    let mut i: usize = 0;
    while i < bytes.len()
        invariant
            i <= bytes@.len(),
            first_byte(bytes@.subrange(0, i as int), byte) is None,
        decreases bytes@.len() - i,
    {
        proof {
            let next = bytes@.subrange(0, i + 1);
            assert(next.drop_last() =~= bytes@.subrange(0, i as int));
            assert(next.last() == bytes@[i as int]);
        }
        if bytes[i] == byte {
            proof {
                first_byte_stays_first(bytes@, byte, i + 1);
            }
            return Some(i);
        }
        i = i + 1;
    }
    assert(bytes@.subrange(0, i as int) =~= bytes@);
    None
}

proof fn first_byte_stays_first(bytes: Seq<u8>, byte: u8, n: int)
    requires
        0 <= n <= bytes.len(),
        first_byte(bytes.subrange(0, n), byte) is Some,
    ensures
        first_byte(bytes, byte) == first_byte(bytes.subrange(0, n), byte),
    decreases bytes.len() - n,
{
    if n == bytes.len() {
        assert(bytes.subrange(0, n) =~= bytes);
    } else {
        assert(bytes.subrange(0, n + 1).drop_last() =~= bytes.subrange(0, n));
        first_byte_stays_first(bytes, byte, n + 1);
    }
}

/// The version in a file stem that reads `lowercased` in lower case: the digits
/// behind the first "v", such as 111 for "V1.11".
pub fn version_after(stem: &str, lowercased: &str) -> (r: Option<u16>)
    requires
        cuttable(text::utf8(stem@), text::utf8(lowercased@)),
    ensures
        r == version_after_v(text::utf8(stem@), text::utf8(lowercased@)),
{
    let bytes = stem.as_bytes();
    let from: usize = match find_byte(lowercased.as_bytes(), 118) {
        Some(at) => at + 1,
        None => return None,
    };
    let ghost part = bytes@.subrange(from as int, bytes@.len() as int);
    let ghost is_digit = |b: u8| 48 <= b <= 57;
    let mut value: u32 = 0;
    let mut any: bool = false;
    let mut large: bool = false;
    let mut i: usize = from;
    proof {
        reveal(Seq::filter);
        assert(part.subrange(0, 0) =~= Seq::<u8>::empty());
        assert(digits_of(part.subrange(0, 0)) =~= Seq::<u8>::empty());
    }
    while i < bytes.len()
        invariant
            from <= i <= bytes@.len(),
            part == bytes@.subrange(from as int, bytes@.len() as int),
            any == (digits_of(part.subrange(0, i - from)).len() > 0),
            large ==> number(digits_of(part.subrange(0, i - from))) > 65535,
            !large ==> value == number(digits_of(part.subrange(0, i - from))) && value <= 65535,
        decreases bytes@.len() - i,
    {
        let b: u8 = bytes[i];
        proof {
            let k = i - from;
            let next = part.subrange(0, k + 1);
            assert(next.drop_last() =~= part.subrange(0, k));
            assert(next.last() == b);
            reveal(Seq::filter);
            let before = digits_of(part.subrange(0, k));
            if 48 <= b <= 57 {
                assert(digits_of(next) == before.push(b));
                assert(before.push(b).drop_last() =~= before);
            } else {
                assert(digits_of(next) == before);
            }
        }
        if 48 <= b && b <= 57 {
            any = true;
            if !large {
                value = value * 10 + (b - 48) as u32;
                large = value > 65535;
            }
        }
        i = i + 1;
    }
    assert(part.subrange(0, i - from) =~= part);
    if !any || large {
        None
    } else {
        Some(value as u16)
    }
}

/// Parse a firmware version from a file stem like "Fnb58V1.11".
///
/// The digits behind the first "v", in either case, make the version: 111 for
/// "V1.11", 68 for "V0.68".
pub fn parse_firmware_version(stem: &str) -> (r: Option<u16>)
    requires
        cuttable(text::utf8(stem@), text::utf8(text::lowered(stem@))),
    ensures
        r == version_after_v(
            text::utf8(stem@),
            text::utf8(text::lowered(stem@)),
        ),
{
    let lowercased = text::to_lowercase(stem);
    version_after(stem, lowercased.as_str())
}

/// [`parse_firmware_version`] where it takes the stem, and `None` where it does
/// not: where the lower-case form has its first "v" at a place at which the stem
/// cannot be cut.
pub fn try_parse_firmware_version(stem: &str) -> (r: Option<Option<u16>>)
    ensures
        r is Some <==> cuttable(
            text::utf8(stem@),
            text::utf8(text::lowered(stem@)),
        ),
        r matches Some(version) ==> version == version_after_v(
            text::utf8(stem@),
            text::utf8(text::lowered(stem@)),
        ),
{
    let lowercased = text::to_lowercase(stem);
    match find_byte(lowercased.as_str().as_bytes(), 118) {
        Some(at) => if at < stem.as_bytes().len() && stem.is_char_boundary(at + 1) {
            Some(parse_firmware_version(stem))
        } else {
            None
        },
        None => Some(parse_firmware_version(stem)),
    }
}

/// Format law: whatever is written can be read under the same extension, as the
/// same format.
pub proof fn written_formats_can_be_read(extension: Seq<char>)
    ensures
        OutputFormat::of_extension(extension) == Some(OutputFormat::Csv) <==>
            InputFormat::of_extension(extension) == Some(InputFormat::Csv),
        OutputFormat::of_extension(extension) == Some(OutputFormat::Jsonl) <==>
            InputFormat::of_extension(extension) == Some(InputFormat::Jsonl),
        OutputFormat::of_extension(extension) == Some(OutputFormat::Xlsx) <==>
            InputFormat::of_extension(extension) == Some(InputFormat::Xlsx),
        OutputFormat::of_extension(extension) == Some(OutputFormat::Parquet) <==>
            InputFormat::of_extension(extension) == Some(InputFormat::Parquet),
        OutputFormat::of_extension(extension) != Some(OutputFormat::JsonStdout),
        OutputFormat::of_extension(extension) != Some(OutputFormat::TabStdout),
        InputFormat::of_extension(extension) == Some(InputFormat::Cfn) <==> extension == "cfn"@,
        InputFormat::of_extension(extension) == Some(InputFormat::Csv) <==> extension == "csv"@,
        InputFormat::of_extension(extension) == Some(InputFormat::Xlsx) <==> extension == "xlsx"@,
        InputFormat::of_extension(extension) == Some(InputFormat::Jsonl) <==> extension == "jsonl"@
            || extension == "ndjson"@,
        InputFormat::of_extension(extension) == Some(InputFormat::Parquet) <==> extension
            == "parquet"@ || extension == "parq"@,
{
    reveal_strlit("cfn");
    reveal_strlit("csv");
    reveal_strlit("xlsx");
    reveal_strlit("jsonl");
    reveal_strlit("ndjson");
    reveal_strlit("parquet");
    reveal_strlit("parq");
    assert("cfn"@.len() == 3 && "csv"@.len() == 3 && "xlsx"@.len() == 4 && "parq"@.len() == 4);
    assert("jsonl"@.len() == 5 && "ndjson"@.len() == 6 && "parquet"@.len() == 7);
    assert("cfn"@[1] != "csv"@[1]);
    assert("xlsx"@[0] != "parq"@[0]);
}

/// Format law: on import the case of ASCII letters makes no difference.
pub proof fn imports_ignore_the_case(a: Seq<char>, b: Seq<char>)
    requires
        a.len() == b.len(),
        forall|i: int|
            0 <= i < a.len() ==> text::ascii_lower(#[trigger] a[i]) == text::ascii_lower(b[i]),
    ensures
        InputFormat::alike(a, b),
        InputFormat::imported(a) == InputFormat::imported(b),
{
    assert(a.map_values(|c: char| text::ascii_lower(c)) =~= b.map_values(
        |c: char| text::ascii_lower(c),
    ));
}

/// Version law: the place of a byte is its first.
pub proof fn bytes_are_found_at_their_first_place(bytes: Seq<u8>, byte: u8)
    ensures
        match first_byte(bytes, byte) {
            Some(i) => {
                &&& 0 <= i < bytes.len()
                &&& bytes[i] == byte
                &&& forall|j: int| 0 <= j < i ==> #[trigger] bytes[j] != byte
            },
            None => forall|j: int| 0 <= j < bytes.len() ==> #[trigger] bytes[j] != byte,
        },
    decreases bytes.len(),
{
    if bytes.len() > 0 {
        let init = bytes.drop_last();
        bytes_are_found_at_their_first_place(init, byte);
        assert(bytes[bytes.len() - 1] == bytes.last());
        assert(forall|j: int| 0 <= j < init.len() ==> #[trigger] bytes[j] == init[j]);
    }
}

/// Version law: nothing but the digits behind the first "v" makes a version. A
/// stem without one has none.
pub proof fn versions_stand_behind_the_first_v(stem: Seq<u8>, lowercased: Seq<u8>, at: int)
    requires
        0 <= at < lowercased.len(),
        at < stem.len(),
        forall|j: int| 0 <= j < at ==> #[trigger] lowercased[j] != 'v' as int,
    ensures
        lowercased[at] == 'v' as int ==> version_after_v(stem, lowercased) == version_in(
            stem.subrange(at + 1, stem.len() as int),
        ),
        at == lowercased.len() - 1 && lowercased[at] != 'v' as int ==> version_after_v(
            stem,
            lowercased,
        ) is None,
{
    bytes_are_found_at_their_first_place(lowercased, 118);
}

/// Version law: a byte that is no digit makes no difference.
pub proof fn versions_ignore_other_bytes(before: Seq<u8>, other: u8, after: Seq<u8>)
    requires
        !('0' as int <= other <= '9' as int),
    ensures
        version_in(before + seq![other] + after) == version_in(before + after),
{
    let is_digit = |b: u8| 48 <= b <= 57;
    Seq::filter_distributes_over_add(before, seq![other], is_digit);
    Seq::filter_distributes_over_add(before + seq![other], after, is_digit);
    Seq::filter_distributes_over_add(before, after, is_digit);
    reveal(Seq::filter);
    assert(seq![other].drop_last() =~= Seq::<u8>::empty());
    assert(seq![other].last() == other && !is_digit(seq![other].last()));
    assert(digits_of(seq![other].drop_last()).len() == 0);
    assert(digits_of(seq![other]) =~= Seq::<u8>::empty());
    assert(digits_of(before) + digits_of(seq![other]) =~= digits_of(before));
}

proof fn digits_are_kept(digits: Seq<u8>)
    requires
        forall|i: int| 0 <= i < digits.len() ==> 48 <= #[trigger] digits[i] <= 57,
    ensures
        digits_of(digits) == digits,
    decreases digits.len(),
{
    reveal(Seq::filter);
    if digits.len() > 0 {
        digits_are_kept(digits.drop_last());
        assert(48 <= digits[digits.len() - 1] <= 57);
        assert(digits.drop_last().push(digits.last()) =~= digits);
    }
}

proof fn digits_make_their_number(digits: Seq<u8>, chars: Seq<char>)
    requires
        digits.len() == chars.len(),
        forall|i: int| 0 <= i < chars.len() ==> digits[i] as int == #[trigger] chars[i] as int,
        forall|i: int| 0 <= i < chars.len() ==> 48 <= #[trigger] chars[i] as int <= 57,
    ensures
        number(digits) == text::number_read(chars),
    decreases digits.len(),
{
    if digits.len() > 0 {
        let shorter = chars.drop_last();
        assert(forall|i: int| 0 <= i < shorter.len() ==> #[trigger] shorter[i] == chars[i]);
        digits_make_their_number(digits.drop_last(), shorter);
        assert(digits.last() as int == chars[chars.len() - 1] as int);
    }
}

/// Version law: a number in decimal is the version, where it fits in 16 bits,
/// and there is none where it does not.
pub proof fn versions_read_as_their_number(n: nat, digits: Seq<u8>)
    requires
        digits.len() == text::decimal_text(n).len(),
        forall|i: int|
            0 <= i < digits.len() ==> digits[i] as int == #[trigger] text::decimal_text(n)[i] as int,
    ensures
        n <= 65535 ==> version_in(digits) == Some(n as u16),
        n > 65535 ==> version_in(digits) is None,
        version_in(Seq::<u8>::empty()) is None,
{
    let chars = text::decimal_text(n);
    text::decimals_read_as_their_number(n);
    digits_make_their_number(digits, chars);
    assert forall|i: int| 0 <= i < digits.len() implies 48 <= #[trigger] digits[i] <= 57 by {
        assert(48 <= chars[i] as int <= 57);
    }
    digits_are_kept(digits);
    digits_are_kept(Seq::<u8>::empty());
}

/// Version law: a zero in front of the digits makes no difference.
pub proof fn versions_ignore_leading_zeros(digits: Seq<u8>)
    requires
        digits.len() > 0,
        forall|i: int| 0 <= i < digits.len() ==> 48 <= #[trigger] digits[i] <= 57,
    ensures
        version_in(seq![48u8] + digits) == version_in(digits),
{
    let longer = seq![48u8] + digits;
    digits_are_kept(digits);
    digits_are_kept(longer);
    leading_zeros_count_nothing(digits);
}

proof fn leading_zeros_count_nothing(digits: Seq<u8>)
    ensures
        number(seq![48u8] + digits) == number(digits),
    decreases digits.len(),
{
    let longer = seq![48u8] + digits;
    if digits.len() == 0 {
        assert(longer.drop_last() =~= Seq::<u8>::empty());
        assert(longer.last() == 48);
        assert(number(longer.drop_last()) == 0);
    } else {
        leading_zeros_count_nothing(digits.drop_last());
        assert(longer.drop_last() =~= seq![48u8] + digits.drop_last());
    }
}

/// Format law: an extension in lower case is imported as the format that it
/// stands for elsewhere, and as CSV where it stands for none; the one exception
/// is the second extension of JSON Lines.
pub proof fn imports_agree_with_the_formats(extension: Seq<char>)
    requires
        forall|i: int|
            0 <= i < extension.len() ==> text::ascii_lower(#[trigger] extension[i])
                == extension[i],
        extension != "ndjson"@,
    ensures
        InputFormat::imported(extension) == match InputFormat::of_extension(extension) {
            Some(format) => format,
            None => InputFormat::Csv,
        },
{
    reveal_strlit("cfn");
    reveal_strlit("csv");
    reveal_strlit("xlsx");
    reveal_strlit("jsonl");
    reveal_strlit("parquet");
    reveal_strlit("parq");
    lower_case_is_itself(extension);
    lower_case_is_itself("cfn"@);
    lower_case_is_itself("xlsx"@);
    lower_case_is_itself("jsonl"@);
    lower_case_is_itself("parquet"@);
    lower_case_is_itself("parq"@);
    written_formats_can_be_read(extension);
    assert("cfn"@.len() == 3 && "csv"@.len() == 3 && "xlsx"@.len() == 4 && "parq"@.len() == 4);
    assert("jsonl"@.len() == 5 && "parquet"@.len() == 7);
    assert("cfn"@[1] != "csv"@[1]);
    assert("xlsx"@[0] != "parq"@[0]);
}

proof fn lower_case_is_itself(s: Seq<char>)
    requires
        forall|i: int| 0 <= i < s.len() ==> text::ascii_lower(#[trigger] s[i]) == s[i],
    ensures
        s.map_values(|c: char| text::ascii_lower(c)) == s,
{
    assert(s.map_values(|c: char| text::ascii_lower(c)) =~= s);
}

/// Format law: a path without an extension has the empty one.
pub proof fn missing_extensions_are_empty(extension: &str)
    ensures
        extension_text(Some(extension)) == extension@,
        extension_text(None).len() == 0,
{
    reveal_strlit("");
}

/// Message law: an unknown extension is told, with those that can be written;
/// where Parquet is left out, the program is told that can be built with it.
pub proof fn refusals_tell_the_extension(extension: String, program: Seq<char>, parquet: bool)
    ensures
        FormatError::UnknownOutput(extension).described(program, parquet)
            == "Unknown output extension '."@ + extension@ + "'. Use "@ + output_list(parquet)
            + "."@,
        FormatError::ParquetDisabled.described(program, parquet)
            == "Parquet support is disabled. Rebuild "@ + program
            + " with `--features parquet`."@,
{
}

/// Version law: a stem is taken where its lower-case form has no "v", and else
/// exactly where it can be cut behind the place of the first one.
pub proof fn stems_are_cut_behind_the_first_v(stem: Seq<u8>, lowercased: Seq<u8>, at: int)
    requires
        0 <= at <= lowercased.len(),
        forall|j: int| 0 <= j < at ==> #[trigger] lowercased[j] != 'v' as int,
    ensures
        at == lowercased.len() ==> cuttable(stem, lowercased) && version_after_v(
            stem,
            lowercased,
        ) is None,
        at < lowercased.len() && lowercased[at] == 'v' as int ==> cuttable(stem, lowercased) == (at
            + 1 <= stem.len() && vstd::utf8::is_char_boundary(stem, at + 1)),
{
    bytes_are_found_at_their_first_place(lowercased, 118);
}

} // verus!
