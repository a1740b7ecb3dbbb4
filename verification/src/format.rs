//! Numbers as text for reports.

use vstd::prelude::*;
use vstd::string::StringExecFns;

verus! {

/// The character of a decimal digit.
pub open spec fn digit_char(d: nat) -> char {
    (0x30 + d) as char
}

/// The decimal digits of a number, the most significant first, without
/// leading zeros; one zero for 0.
pub open spec fn decimal_digits(n: nat) -> Seq<char>
    decreases n,
{
    if n < 10 {
        seq![digit_char(n)]
    } else {
        decimal_digits(n / 10).push(digit_char(n % 10))
    }
}

/// The three digits of a number below 1000, with leading zeros.
pub open spec fn three_digits(n: nat) -> Seq<char> {
    seq![digit_char(n / 100), digit_char((n / 10) % 10), digit_char(n % 10)]
}

/// The decimal digits of a number in groups of three from the right, with a
/// comma between two groups: `1,234,567`.
pub open spec fn grouped_digits(n: nat) -> Seq<char>
    decreases n,
{
    if n < 1000 {
        decimal_digits(n)
    } else {
        grouped_digits(n / 1000) + seq![','] + three_digits(n % 1000)
    }
}

fn digit_text(d: u64) -> (s: &'static str)
    requires
        d < 10,
    ensures
        s@ == seq![digit_char(d as nat)],
{
    proof {
        reveal_strlit("0");
        reveal_strlit("1");
        reveal_strlit("2");
        reveal_strlit("3");
        reveal_strlit("4");
        reveal_strlit("5");
        reveal_strlit("6");
        reveal_strlit("7");
        reveal_strlit("8");
        reveal_strlit("9");
    }
    let s = if d == 0 {
        "0"
    } else if d == 1 {
        "1"
    } else if d == 2 {
        "2"
    } else if d == 3 {
        "3"
    } else if d == 4 {
        "4"
    } else if d == 5 {
        "5"
    } else if d == 6 {
        "6"
    } else if d == 7 {
        "7"
    } else if d == 8 {
        "8"
    } else {
        "9"
    };
    assert(s@ =~= seq![digit_char(d as nat)]);
    s
}

/// Appends the digits of a number below 1000, all three of them where
/// `padded`, else without leading zeros.
fn append_group(out: &mut String, group: u64, padded: bool)
    requires
        group < 1000,
    ensures
        final(out)@ == old(out)@ + (if padded {
            three_digits(group as nat)
        } else {
            decimal_digits(group as nat)
        }),
{
    let ghost before = out@;
    if padded || group >= 100 {
        out.append(digit_text(group / 100));
    }
    if padded || group >= 10 {
        out.append(digit_text((group / 10) % 10));
    }
    out.append(digit_text(group % 10));
    proof {
        let g = group as nat;
        if !padded {
            if g >= 100 {
                assert(decimal_digits(g / 100) == seq![digit_char(g / 100)]);
                assert(decimal_digits(g / 10) == decimal_digits(g / 100).push(
                    digit_char((g / 10) % 10),
                ));
                assert(out@ =~= before + decimal_digits(g));
            } else if g >= 10 {
                assert(decimal_digits(g / 10) == seq![digit_char(g / 10)]);
                assert(out@ =~= before + decimal_digits(g));
            } else {
                assert(out@ =~= before + decimal_digits(g));
            }
        } else {
            assert(out@ =~= before + three_digits(g));
        }
    }
}

/// The number in decimal with a comma between each two groups of three
/// digits.
pub fn printable_large_num(number: u64) -> (text: String)
    ensures
        text@ == grouped_digits(number as nat),
{
    // rest[j] is the number without its j lowest groups; the last is below 1000.
    let mut rest: Vec<u64> = Vec::new();
    rest.push(number);
    let mut top: u64 = number;
    while top >= 1000
        invariant
            rest.len() > 0,
            rest[0] == number,
            top == rest[rest.len() - 1],
            forall|j: int|
                0 < j < rest.len() ==> rest[j - 1] >= 1000 && #[trigger] rest[j] == rest[j - 1]
                    / 1000,
        decreases top,
    {
        top = top / 1000;
        rest.push(top);
    }
    let mut text = String::new();
    let mut i: usize = rest.len() - 1;
    append_group(&mut text, rest[i], false);
    assert(text@ =~= grouped_digits(rest[i as int] as nat));
    while i > 0
        invariant
            i < rest.len(),
            rest[0] == number,
            forall|j: int|
                0 < j < rest.len() ==> rest[j - 1] >= 1000 && #[trigger] rest[j] == rest[j - 1]
                    / 1000,
            text@ == grouped_digits(rest[i as int] as nat),
        decreases i,
    {
        i -= 1;
        proof {
            assert(rest[i + 1] == rest[i as int] / 1000 && rest[i as int] >= 1000);
            reveal_strlit(",");
        }
        text.append(",");
        append_group(&mut text, rest[i] % 1000, true);
        assert(text@ =~= grouped_digits(rest[i as int] as nat));
    }
    text
}

/// The unit in which a frequency is shown.
#[derive(Clone, Copy, Debug, PartialEq, Eq, Structural)]
pub enum FrequencyUnit {
    Hertz,
    Kilohertz,
    Megahertz,
    Gigahertz,
    Terahertz,
}

impl FrequencyUnit {
    /// The number of hertz in one of the unit.
    pub open spec fn hertz(self) -> nat {
        match self {
            FrequencyUnit::Hertz => 1,
            FrequencyUnit::Kilohertz => 1_000,
            FrequencyUnit::Megahertz => 1_000_000,
            FrequencyUnit::Gigahertz => 1_000_000_000,
            FrequencyUnit::Terahertz => 1_000_000_000_000,
        }
    }

    /// The number of digits shown behind the point.
    pub open spec fn decimals(self) -> nat {
        match self {
            FrequencyUnit::Hertz => 0,
            FrequencyUnit::Kilohertz => 3,
            FrequencyUnit::Megahertz => 2,
            FrequencyUnit::Gigahertz => 1,
            FrequencyUnit::Terahertz => 1,
        }
    }

    /// The unit in which `freq` hertz are shown: the largest of which
    /// `freq` holds at least one.
    pub open spec fn of(freq: u64) -> FrequencyUnit {
        if freq < 1_000 {
            FrequencyUnit::Hertz
        } else if freq < 1_000_000 {
            FrequencyUnit::Kilohertz
        } else if freq < 1_000_000_000 {
            FrequencyUnit::Megahertz
        } else if freq < 1_000_000_000_000 {
            FrequencyUnit::Gigahertz
        } else {
            FrequencyUnit::Terahertz
        }
    }

    /// The number of hertz in one of the unit.
    pub fn divisor(&self) -> (r: u64)
        ensures
            r == self.hertz(),
    {
        match self {
            FrequencyUnit::Hertz => 1,
            FrequencyUnit::Kilohertz => 1_000,
            FrequencyUnit::Megahertz => 1_000_000,
            FrequencyUnit::Gigahertz => 1_000_000_000,
            FrequencyUnit::Terahertz => 1_000_000_000_000,
        }
    }

    /// The number of digits shown behind the point.
    pub fn precision(&self) -> (r: usize)
        ensures
            r == self.decimals(),
    {
        match self {
            FrequencyUnit::Hertz => 0,
            FrequencyUnit::Kilohertz => 3,
            FrequencyUnit::Megahertz => 2,
            FrequencyUnit::Gigahertz => 1,
            FrequencyUnit::Terahertz => 1,
        }
    }

    /// The name of the unit.
    pub fn name(&self) -> (r: &'static str)
        ensures
            r@ == match self {
                FrequencyUnit::Hertz => "Hz"@,
                FrequencyUnit::Kilohertz => "KHz"@,
                FrequencyUnit::Megahertz => "MHz"@,
                FrequencyUnit::Gigahertz => "GHz"@,
                FrequencyUnit::Terahertz => "THz"@,
            },
    {
        match self {
            FrequencyUnit::Hertz => "Hz",
            FrequencyUnit::Kilohertz => "KHz",
            FrequencyUnit::Megahertz => "MHz",
            FrequencyUnit::Gigahertz => "GHz",
            FrequencyUnit::Terahertz => "THz",
        }
    }
}

/// The unit in which a frequency is shown.
pub fn frequency_unit(freq: u64) -> (unit: FrequencyUnit)
    ensures
        unit == FrequencyUnit::of(freq),
{
    if freq < 1_000 {
        FrequencyUnit::Hertz
    } else if freq < 1_000_000 {
        FrequencyUnit::Kilohertz
    } else if freq < 1_000_000_000 {
        FrequencyUnit::Megahertz
    } else if freq < 1_000_000_000_000 {
        FrequencyUnit::Gigahertz
    } else {
        FrequencyUnit::Terahertz
    }
}

} // verus!
