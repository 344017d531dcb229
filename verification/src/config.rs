//! What a campaign is started with: the mode, the directories and the time limit.

use crate::executor::DEFAULT_TIMEOUT_MS;
use vstd::prelude::*;
use vstd::string::StringSliceAdditionalSpecFns;

verus! {

/// The arguments of a run, as the command line gave them.
#[derive(Debug)]
pub struct Arguments {
    /// The directory to place finds in.
    pub output: Option<String>,
    /// The directory to read initial inputs from.
    pub input: Option<String>,
    /// A file to read tokens from.
    pub tokens: Option<String>,
    /// The time limit of one execution, in milliseconds, as text.
    pub timeout: Option<String>,
    /// Test case files to run instead of fuzzing.
    pub remaining: Vec<String>,
}

/// What a fuzzing campaign was asked for. The seed directory and the time limit are
/// carried as given: they are judged later, in the order of startup, after the
/// output directory.
#[derive(Debug)]
pub struct FuzzPlan {
    pub output_dir: String,
    pub seed_dir: Option<String>,
    pub token_file: Option<String>,
    pub timeout: Option<String>,
}

/// What a run is to do.
#[derive(Debug)]
pub enum Startup {
    /// Execute the given test case files once each, without fuzzing.
    Replay(Vec<String>),
    /// Fuzz as planned.
    Fuzz(FuzzPlan),
    /// No output directory was given.
    MissingOutput,
}

/// Why a campaign cannot be set up.
#[derive(Clone, Copy, Debug, PartialEq, Eq, Structural)]
pub enum SetupFailure {
    /// No output directory was given.
    MissingOutput,
    /// Something that is not a directory stands where the output directory should be.
    OutputDirInvalid,
    /// No seed directory was given.
    MissingInput,
    /// The seed directory is missing or is not a directory.
    SeedDirInvalid,
    /// The time limit is not a number of milliseconds.
    BadTimeout,
    /// The seeds could not be read.
    SeedLoadFailed,
}

/// The exit status of a process that could not set up its campaign.
pub const EXIT_SETUP_FAILURE: i32 = 1;

/// What was found where the output directory should be.
#[derive(Clone, Copy, Debug, PartialEq, Eq, Structural)]
pub enum OutputDir {
    /// The directory did not exist and was created.
    Created,
    /// The directory was there already.
    Existing,
    /// Something that is not a directory stands in its place.
    Invalid,
}

/// An ASCII decimal digit.
pub open spec fn is_digit(byte: u8) -> bool {
    48 <= byte <= 57
}

/// Every byte is a decimal digit.
pub open spec fn all_digits(text: Seq<u8>) -> bool {
    forall|i: int| 0 <= i < text.len() ==> is_digit(#[trigger] text[i])
}

/// The number that a string of decimal digits writes.
pub open spec fn digits_value(text: Seq<u8>) -> nat
    decreases text.len(),
{
    if text.len() == 0 {
        0
    } else {
        (digits_value(text.drop_last()) * 10 + (text.last() - 48)) as nat
    }
}

/// The text without a leading plus sign.
pub open spec fn unsigned_part(text: Seq<u8>) -> Seq<u8> {
    if text.len() > 0 && text[0] == 43 {
        text.subrange(1, text.len() as int)
    } else {
        text
    }
}

/// The time limit that a text stands for: one or more decimal digits, optionally
/// behind a plus sign, that write a number which fits 64 bits.
pub open spec fn millis_of(text: Seq<u8>) -> Option<u64> {
    let digits = unsigned_part(text);
    if digits.len() > 0 && all_digits(digits) && digits_value(digits) <= u64::MAX {
        Some(digits_value(digits) as u64)
    } else {
        None
    }
}

/// The value of a digit string is at least the value of each of its prefixes.
pub proof fn lemma_digits_value_monotone(text: Seq<u8>, k: int)
    requires
        all_digits(text),
        0 <= k <= text.len(),
    ensures
        digits_value(text.subrange(0, k)) <= digits_value(text),
    decreases text.len(),
{
    if k == text.len() {
        assert(text.subrange(0, k) =~= text);
    } else {
        let shorter = text.drop_last();
        assert(all_digits(shorter)) by {
            assert forall|i: int| 0 <= i < shorter.len() implies is_digit(#[trigger] shorter[i]) by {
                assert(shorter[i] == text[i]);
            }
        }
        lemma_digits_value_monotone(shorter, k);
        assert(shorter.subrange(0, k) =~= text.subrange(0, k));
        assert(is_digit(text[text.len() - 1]));
    }
}

/// Reads a time limit in milliseconds.
pub fn parse_millis(text: &str) -> (millis: Option<u64>)
    ensures
        millis == millis_of(text.spec_bytes()),
{
    let bytes = text.as_bytes();
    let n = bytes.len();
    let first: usize = if n > 0 && bytes[0] == 43 {
        1
    } else {
        0
    };
    if first >= n {
        return None;
    }
    let ghost digits = unsigned_part(bytes@);
    let mut value: u64 = 0;
    let mut i: usize = first;
    proof {
        assert(digits.subrange(0, 0) =~= Seq::<u8>::empty());
    }
    while i < n
        invariant
            first <= i <= n,
            n == bytes@.len(),
            bytes@ == text.spec_bytes(),
            first <= 1,
            digits == unsigned_part(bytes@),
            digits.len() == n - first,
            forall|k: int| 0 <= k < digits.len() ==> digits[k] == bytes@[k + first],
            forall|k: int| 0 <= k < i - first ==> is_digit(#[trigger] digits[k]),
            value == digits_value(digits.subrange(0, i - first)),
        decreases n - i,
    {
        let byte = bytes[i];
        if byte < 48 || byte > 57 {
            assert(!is_digit(digits[i - first]));
            return None;
        }
        let digit: u64 = (byte - 48) as u64;
        proof {
            let next = digits.subrange(0, i - first + 1);
            assert(next.drop_last() =~= digits.subrange(0, i - first));
            assert(next.last() == byte);
        }
        if value > (u64::MAX - digit) / 10 {
            proof {
                let next = digits.subrange(0, i - first + 1);
                assert(digits_value(next) > u64::MAX);
                if all_digits(digits) {
                    lemma_digits_value_monotone(digits, i - first + 1);
                }
            }
            return None;
        }
        value = value * 10 + digit;
        i = i + 1;
    }
    proof {
        assert(digits.subrange(0, i - first) =~= digits);
    }
    Some(value)
}

/// Decides what a run is to do. Test case files on the command line ask for a
/// replay and nothing else is looked at. Otherwise the output directory is needed;
/// the rest of the arguments is handed on as given.
pub fn plan_startup(arguments: Arguments) -> (startup: Startup)
    ensures
        arguments.remaining@.len() > 0 ==> startup == Startup::Replay(arguments.remaining),
        arguments.remaining@.len() == 0 && arguments.output is None ==> startup
            is MissingOutput,
        arguments.remaining@.len() == 0 && arguments.output is Some ==> startup == Startup::Fuzz(
            FuzzPlan {
                output_dir: arguments.output->0,
                seed_dir: arguments.input,
                token_file: arguments.tokens,
                timeout: arguments.timeout,
            },
        ),
{
    let Arguments { output, input, tokens, timeout, remaining } = arguments;
    if remaining.len() > 0 {
        return Startup::Replay(remaining);
    }
    match output {
        Some(output_dir) => Startup::Fuzz(
            FuzzPlan { output_dir, seed_dir: input, token_file: tokens, timeout },
        ),
        None => Startup::MissingOutput,
    }
}

/// The time limit that a campaign runs with: 12000 ms unless one is given.
pub open spec fn timeout_of(text: Option<String>) -> Option<u64> {
    match text {
        Some(text) => millis_of(vstd::utf8::encode_utf8(text@)),
        None => Some(DEFAULT_TIMEOUT_MS),
    }
}

/// Decides the time limit of a campaign. It is refused if it is not a number of
/// milliseconds.
pub fn decide_timeout(text: &Option<String>) -> (limit: Result<u64, SetupFailure>)
    ensures
        limit is Ok <==> timeout_of(*text) is Some,
        limit is Ok ==> limit->Ok_0 == timeout_of(*text)->0,
        limit is Err ==> limit->Err_0 == SetupFailure::BadTimeout,
{
    let parsed = match text {
        Some(text) => parse_millis(text.as_str()),
        None => Some(DEFAULT_TIMEOUT_MS),
    };
    match parsed {
        Some(timeout_ms) => Ok(timeout_ms),
        None => Err(SetupFailure::BadTimeout),
    }
}

/// Judges the seed directory, once the output directory is in place: it must have
/// been given and must be a directory.
pub fn judge_seed_dir(given: bool, is_directory: bool) -> (failure: Option<SetupFailure>)
    ensures
        !given ==> failure == Some(SetupFailure::MissingInput),
        given && !is_directory ==> failure == Some(SetupFailure::SeedDirInvalid),
        given && is_directory ==> failure is None,
{
    if !given {
        Some(SetupFailure::MissingInput)
    } else if !is_directory {
        Some(SetupFailure::SeedDirInvalid)
    } else {
        None
    }
}

/// The status with which a process ends that could not set up its campaign. It is
/// never the status of a graceful shutdown.
pub fn exit_status(failure: SetupFailure) -> (status: i32)
    ensures
        status == EXIT_SETUP_FAILURE,
        status != crate::supervisor::EXIT_OK,
{
    EXIT_SETUP_FAILURE
}

/// The failure that a judgement of the output directory stands for, if any.
pub fn output_dir_failure(found: OutputDir) -> (failure: Option<SetupFailure>)
    ensures
        found == OutputDir::Invalid ==> failure == Some(SetupFailure::OutputDirInvalid),
        found != OutputDir::Invalid ==> failure is None,
{
    match found {
        OutputDir::Invalid => Some(SetupFailure::OutputDirInvalid),
        _ => None,
    }
}

/// Judges the output directory from what creating it and looking at it gave.
pub fn judge_output_dir(created: bool, is_directory: bool) -> (found: OutputDir)
    ensures
        created ==> found == OutputDir::Created,
        !created && is_directory ==> found == OutputDir::Existing,
        !created && !is_directory ==> found == OutputDir::Invalid,
{
    if created {
        OutputDir::Created
    } else if is_directory {
        OutputDir::Existing
    } else {
        OutputDir::Invalid
    }
}

/// The name of the directory, under the output directory, that holds the corpus.
pub fn queue_subdir() -> (name: &'static str)
    ensures
        name@ == "queue"@,
{
    "queue"
}

/// The name of the directory, under the output directory, that holds the crashes.
pub fn crashes_subdir() -> (name: &'static str)
    ensures
        name@ == "crashes"@,
{
    "crashes"
}

} // verus!
