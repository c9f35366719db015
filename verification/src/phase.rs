use vstd::prelude::*;
use vstd::string::StringExecFns;

verus! {

/// The character that stands for a digit.
pub open spec fn digit(d: int) -> char {
    if d == 0 {
        '0'
    } else if d == 1 {
        '1'
    } else if d == 2 {
        '2'
    } else if d == 3 {
        '3'
    } else if d == 4 {
        '4'
    } else if d == 5 {
        '5'
    } else if d == 6 {
        '6'
    } else if d == 7 {
        '7'
    } else if d == 8 {
        '8'
    } else {
        '9'
    }
}

/// The digits of a number in base ten, the highest first.
pub open spec fn digits(n: nat) -> Seq<char>
    decreases n,
{
    if n < 10 {
        seq![digit(n as int)]
    } else {
        digits(n / 10).push(digit((n % 10) as int))
    }
}

/// A number as it is written in base ten, with a minus sign where it is negative.
pub open spec fn decimal(n: int) -> Seq<char> {
    if n < 0 {
        seq!['-'] + digits((-n) as nat)
    } else {
        digits(n as nat)
    }
}

/// The digits from the last to the first, as characters.
pub open spec fn digits_back(low: Seq<u8>) -> Seq<char> {
    Seq::new(low.len(), |i: int| digit(low[low.len() - 1 - i] as int))
}

/// The digit as a string.
fn digit_str(d: u8) -> (r: &'static str)
    requires
        d < 10,
    ensures
        r@ == seq![digit(d as int)],
{
    proof {
        reveal_strlit("0");
        reveal_strlit("1");
        reveal_strlit("2");
        reveal_strlit("3");
        reveal_strlit("4");
        reveal_strlit("5");
        reveal_strlit("6");
        reveal_strlit("7");
        reveal_strlit("8");
        reveal_strlit("9");
    }
    let r = if d == 0 {
        "0"
    } else if d == 1 {
        "1"
    } else if d == 2 {
        "2"
    } else if d == 3 {
        "3"
    } else if d == 4 {
        "4"
    } else if d == 5 {
        "5"
    } else if d == 6 {
        "6"
    } else if d == 7 {
        "7"
    } else if d == 8 {
        "8"
    } else {
        "9"
    };
    assert(r@ =~= seq![digit(d as int)]);
    r
}

/// Writes a number in base ten behind what the string holds.
fn write_decimal(out: &mut String, n: i64)
    ensures
        final(out)@ == old(out)@ + decimal(n as int),
{
    let magnitude: u64 = if n < 0 {
        out.append("-");
        proof {
            reveal_strlit("-");
            assert("-"@ =~= seq!['-']);
        }
        (-(n as i128)) as u64
    } else {
        n as u64
    };
    let ghost start = out@;
    let mut rest = magnitude;
    let mut low: Vec<u8> = Vec::new();
    assert(digits(rest as nat) + digits_back(low@) =~= digits(magnitude as nat));
    while rest >= 10
        invariant
            digits(magnitude as nat) == digits(rest as nat) + digits_back(low@),
            forall|i: int| 0 <= i < low.len() ==> low[i] < 10,
        decreases rest,
    {
        let ghost before = low@;
        low.push((rest % 10) as u8);
        proof {
            assert(digits_back(low@) =~= seq![digit((rest % 10) as int)] + digits_back(before));
            assert(digits((rest / 10) as nat).push(digit((rest % 10) as int)) + digits_back(before)
                =~= digits((rest / 10) as nat) + digits_back(low@));
        }
        rest = rest / 10;
    }
    out.append(digit_str(rest as u8));
    let mut i = low.len();
    assert(digits_back(low@).take(0) =~= Seq::empty());
    assert(out@ =~= start + digits(rest as nat) + digits_back(low@).take(0));
    while i > 0
        invariant
            i <= low.len(),
            forall|j: int| 0 <= j < low.len() ==> low[j] < 10,
            out@ == start + digits(rest as nat) + digits_back(low@).take(low.len() - i),
        decreases i,
    {
        i -= 1;
        let ghost written = digits_back(low@).take(low.len() - i - 1);
        out.append(digit_str(low[i]));
        proof {
            assert(digits_back(low@).take(low.len() - i) =~= written + seq![digit(low[i as int] as int)]);
            assert(out@ =~= start + digits(rest as nat) + digits_back(low@).take(low.len() - i));
        }
    }
    proof {
        assert(digits_back(low@).take(low.len() as int) =~= digits_back(low@));
        assert(out@ =~= start + (digits(rest as nat) + digits_back(low@)));
        if n < 0 {
            assert(old(out)@ + decimal(n as int) =~= old(out)@ + seq!['-'] + digits(magnitude as nat));
        }
    }
}

/// A turn of the game: the `n`-th day or the `n`-th night.
///
/// A game starts in `Night(0)`, which `Day(1)` follows.
#[derive(Debug, Clone, Copy, PartialEq, Eq, Structural)]
pub enum Phase {
    Day(i64),
    Night(i64),
}

impl Phase {
    /// The number that the phase carries.
    pub open spec fn number(self) -> int {
        match self {
            Phase::Day(n) => n as int,
            Phase::Night(n) => n as int,
        }
    }

    /// The phase that precedes this one: the night before a day, the day of a night.
    pub open spec fn spec_prev(self) -> Phase {
        match self {
            Phase::Day(n) => Phase::Night((n - 1) as i64),
            Phase::Night(n) => Phase::Day(n),
        }
    }

    /// Whether the number of the phase that follows can be held: the phase
    /// is not the night whose number is the last.
    pub open spec fn has_next(self) -> bool {
        self matches Phase::Night(n) ==> n < i64::MAX
    }

    /// The phase that follows this one: the night of a day, the day after a night.
    pub open spec fn spec_next(self) -> Phase {
        match self {
            Phase::Day(n) => Phase::Night(n),
            Phase::Night(n) => Phase::Day((n + 1) as i64),
        }
    }

    /// Position of the phase in the order of play, `Night(0)` being 0.
    pub open spec fn spec_seq(self) -> int {
        match self {
            Phase::Day(n) => 2 * n - 1,
            Phase::Night(n) => 2 * n,
        }
    }

    /// The name of the phase as one word: `day` or `night`, and the number.
    pub open spec fn spec_id(self) -> Seq<char> {
        match self {
            Phase::Day(n) => "day"@ + decimal(n as int),
            Phase::Night(n) => "night"@ + decimal(n as int),
        }
    }

    /// The phase that precedes this one.
    pub fn prev(&self) -> (r: Phase)
        requires
            self matches Phase::Day(n) ==> n > i64::MIN,
        ensures
            r == self.spec_prev(),
    {
        match self {
            Phase::Day(n) => Phase::Night(*n - 1),
            Phase::Night(n) => Phase::Day(*n),
        }
    }

    /// The phase that follows this one.
    pub fn next(&self) -> (r: Phase)
        requires
            self.has_next(),
        ensures
            r == self.spec_next(),
    {
        match self {
            Phase::Day(n) => Phase::Night(*n),
            Phase::Night(n) => Phase::Day(*n + 1),
        }
    }

    /// The name of the phase as one word, such as `day1` or `night0`.
    pub fn id(&self) -> (r: String)
        ensures
            r@ == self.spec_id(),
    {
        match self {
            Phase::Day(n) => {
                let mut out = "day".to_string();
                write_decimal(&mut out, *n);
                out
            },
            Phase::Night(n) => {
                let mut out = "night".to_string();
                write_decimal(&mut out, *n);
                out
            },
        }
    }

    /// Position of the phase in the order of play.
    pub fn seq(&self) -> (r: i64)
        requires
            i64::MIN <= self.spec_seq(),
            2 * self.number() <= i64::MAX,
        ensures
            r == self.spec_seq(),
    {
        match self {
            Phase::Day(n) => 2 * *n - 1,
            Phase::Night(n) => 2 * *n,
        }
    }
}

} // verus!
