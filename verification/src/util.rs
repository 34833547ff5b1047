//! Sizes for people to read, and what to make of a command's output.

use vstd::prelude::*;
use vstd::string::StringExecFns;
use crate::text::{
    contains, lines, lines_of, occurs_in, option_text, split_whitespace, texts, trim, trimmed_of,
    words_of,
};

verus! {

/// The decimal digit for a number below ten.
pub open spec fn digit(d: nat) -> Seq<char> {
    if d == 0 {
        "0"@
    } else if d == 1 {
        "1"@
    } else if d == 2 {
        "2"@
    } else if d == 3 {
        "3"@
    } else if d == 4 {
        "4"@
    } else if d == 5 {
        "5"@
    } else if d == 6 {
        "6"@
    } else if d == 7 {
        "7"@
    } else if d == 8 {
        "8"@
    } else {
        "9"@
    }
}

/// A number in decimal, without leading zeros.
pub open spec fn decimal_text(n: nat) -> Seq<char>
    decreases n,
{
    if n < 10 {
        digit(n)
    } else {
        decimal_text(n / 10) + digit(n % 10)
    }
}

/// The quotient of `num` by `den`, rounded to the nearest whole number, and
/// to the even one of the two where it lies halfway between them.
pub open spec fn half_even(num: nat, den: nat) -> nat {
    let q = num / den;
    let r = num % den;
    if 2 * r < den {
        q
    } else if 2 * r > den {
        q + 1
    } else if q % 2 == 0 {
        q
    } else {
        q + 1
    }
}

/// The step between neighbouring numbers that a double can hold, around
/// `n`: the least power of two `p`, from `p` on, with `n / p` below 2^53.
pub open spec fn double_step(n: nat, p: nat) -> nat
    decreases 4096 - p,
{
    if p == 0 || p >= 2048 || n / p < 0x20_0000_0000_0000 {
        p
    } else {
        double_step(n, 2 * p)
    }
}

/// The number that a double holds for `n`: `n` itself where it has at most
/// 53 binary digits, and else the nearest multiple of the step around it.
pub open spec fn as_double(n: nat) -> nat {
    half_even(n, double_step(n, 1)) * double_step(n, 1)
}

/// A size in tenths of a unit, as a double would have it.
pub open spec fn tenths(bytes: nat, unit: nat) -> nat {
    half_even(as_double(bytes) * 10, unit)
}

/// A size for people to read: in bytes below 1024, in KiB below 1024 KiB,
/// and else in MiB, with one decimal place for the two larger units.
pub open spec fn size_text(bytes: nat) -> Seq<char> {
    if bytes < 1024 {
        decimal_text(bytes) + " B"@
    } else if bytes < 1024 * 1024 {
        decimal_text(tenths(bytes, 1024) / 10) + "."@ + digit(tenths(bytes, 1024) % 10) + " KiB"@
    } else {
        decimal_text(tenths(bytes, 1024 * 1024) / 10) + "."@ + digit(tenths(bytes, 1024 * 1024) % 10)
            + " MiB"@
    }
}

/// The decimal digit for a number below ten.
fn digit_str(d: u64) -> (s: &'static str)
    requires
        d < 10,
    ensures
        s@ == digit(d as nat),
{
    if d == 0 {
        "0"
    } else if d == 1 {
        "1"
    } else if d == 2 {
        "2"
    } else if d == 3 {
        "3"
    } else if d == 4 {
        "4"
    } else if d == 5 {
        "5"
    } else if d == 6 {
        "6"
    } else if d == 7 {
        "7"
    } else if d == 8 {
        "8"
    } else {
        "9"
    }
}

/// Writes a number in decimal.
pub fn decimal(n: u64) -> (text: String)
    ensures
        text@ == decimal_text(n as nat),
    decreases n,
{
    if n < 10 {
        String::from_str(digit_str(n))
    } else {
        let mut text = decimal(n / 10);
        text.append(digit_str(n % 10));
        text
    }
}

/// Divides, rounding to the nearest whole number and halves to the even one.
fn round_half_even(num: u128, den: u128) -> (q: u128)
    requires
        0 < den <= 0x10_0000,
    ensures
        q == half_even(num as nat, den as nat),
        q <= num / den + 1,
{
    let q = num / den;
    let r = num % den;
    if 2 * r < den {
        q
    } else if 2 * r > den {
        assert(q + 1 <= u128::MAX) by {
            assert(den >= 2);
            assert(num / den <= num / 2) by (nonlinear_arith)
                requires
                    den >= 2,
                    num >= 0,
            ;
        }
        q + 1
    } else if q % 2 == 0 {
        q
    } else {
        assert(q + 1 <= u128::MAX) by {
            assert(den >= 2);
            assert(num / den <= num / 2) by (nonlinear_arith)
                requires
                    den >= 2,
                    num >= 0,
            ;
        }
        q + 1
    }
}

/// The step between neighbouring doubles around `n`.
fn step_for(n: u64) -> (p: u64)
    ensures
        p == double_step(n as nat, 1),
        1 <= p < 4096,
{
    let mut p: u64 = 1;
    while p < 2048 && n / p >= 0x20_0000_0000_0000
        invariant
            1 <= p < 4096,
            double_step(n as nat, 1) == double_step(n as nat, p as nat),
        decreases 4096 - p,
    {
        p = 2 * p;
    }
    p
}

/// A size in tenths of a unit, as a double would have it.
fn tenths_of(bytes: u64, unit: u64) -> (t: u64)
    requires
        unit == 1024 || unit == 1024 * 1024,
        bytes >= unit,
    ensures
        t == tenths(bytes as nat, unit as nat),
{
    let p = step_for(bytes);
    let rounded = round_half_even(bytes as u128, p as u128);
    assert((rounded as int) * (p as int) <= 0x2_0000_0000_0000_0000) by (nonlinear_arith)
        requires
            (rounded as int) <= (bytes as int) / (p as int) + 1,
            1 <= p < 4096,
            bytes <= 0xffff_ffff_ffff_ffff,
    ;
    let double = rounded * (p as u128);
    let t = round_half_even(double * 10, unit as u128);
    assert((t as int) <= u64::MAX) by (nonlinear_arith)
        requires
            (t as int) <= ((double as int) * 10) / (unit as int) + 1,
            (double as int) <= 0x2_0000_0000_0000_0000,
            unit >= 1024,
    ;
    t as u64
}

/// Writes a size for people to read, as formatting the size as a double
/// with one decimal place would.
pub fn human_size(bytes: u64) -> (text: String)
    ensures
        text@ == size_text(bytes as nat),
{
    if bytes < 1024 {
        let mut text = decimal(bytes);
        text.append(" B");
        text
    } else if bytes < 1024 * 1024 {
        let t = tenths_of(bytes, 1024);
        let mut text = decimal(t / 10);
        text.append(".");
        text.append(digit_str(t % 10));
        text.append(" KiB");
        text
    } else {
        let t = tenths_of(bytes, 1024 * 1024);
        let mut text = decimal(t / 10);
        text.append(".");
        text.append(digit_str(t % 10));
        text.append(" MiB");
        text
    }
}

/// What a command says of its version: its trimmed standard output, or,
/// where that is empty, its trimmed standard error; nothing where both are empty.
pub open spec fn reported_version(stdout: Seq<char>, stderr: Seq<char>) -> Option<Seq<char>> {
    if trimmed_of(stdout).len() > 0 {
        Some(trimmed_of(stdout))
    } else if trimmed_of(stderr).len() > 0 {
        Some(trimmed_of(stderr))
    } else {
        None
    }
}

/// Reads what a command says of its version off its output.
pub fn version_from_output(stdout: &str, stderr: &str) -> (version: Option<String>)
    ensures
        option_text(version) == reported_version(stdout@, stderr@),
{
    let out = trim(stdout);
    if !out.is_empty() {
        return Some(out.to_owned());
    }
    let err = trim(stderr);
    if !err.is_empty() {
        Some(err.to_owned())
    } else {
        None
    }
}

/// The version that the runtime reports, given the lines of its output:
/// the last word of the first line, or `unknown` where that line has no word.
pub open spec fn runtime_version(lines: Seq<Seq<char>>) -> Seq<char> {
    let first = if lines.len() > 0 {
        lines[0]
    } else {
        Seq::empty()
    };
    let words = words_of(trimmed_of(first));
    if words.len() > 0 {
        words.last()
    } else {
        "unknown"@
    }
}

/// Reads the version of the runtime off the output of its version command.
pub fn dora_version_from_output(stdout: &str) -> (version: String)
    ensures
        version@ == runtime_version(lines_of(stdout@)),
{
    let all = lines(stdout);
    assert(texts(all@).len() == all@.len());
    let words = if all.len() > 0 {
        assert(texts(all@)[0] == all@[0]@);
        split_whitespace(trim(all[0].as_str()))
    } else {
        let empty = String::new();
        split_whitespace(trim(empty.as_str()))
    };
    assert(texts(words@).len() == words@.len());
    if words.len() > 0 {
        assert(texts(words@).last() == words@[words@.len() - 1]@);
        words[words.len() - 1].clone()
    } else {
        "unknown".to_owned()
    }
}

/// The running dataflows that the runtime lists: the lines of its trimmed
/// output, where it exited with zero and has something else to say than
/// that none is running.
pub open spec fn listed_dataflows(code: int, stdout: Seq<char>) -> Seq<Seq<char>> {
    let output = trimmed_of(stdout);
    if code == 0 && output.len() > 0 && !occurs_in("No running dataflow"@, output) {
        lines_of(output)
    } else {
        Seq::empty()
    }
}

/// Reads the running dataflows off the output of the runtime's list command.
pub fn running_dataflows(code: i32, stdout: &str) -> (dataflows: Vec<String>)
    ensures
        texts(dataflows@) == listed_dataflows(code as int, stdout@),
{
    let output = trim(stdout);
    if code == 0 && !output.is_empty() && !contains(output, "No running dataflow") {
        lines(output)
    } else {
        let none: Vec<String> = Vec::new();
        assert(texts(none@) =~= Seq::<Seq<char>>::empty());
        none
    }
}

} // verus!
