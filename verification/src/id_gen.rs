//! Identifier generation strategies.
//!
//! Each stored memory needs an identifier, and not every storage backend
//! brings its own scheme, so the strategies live here: a plain counter, a
//! counter dressed up as `<prefix>-<nine zero-padded digits>`, and random
//! UUIDs.

use vstd::prelude::*;
use vstd::string::StringExecFns;

verus! {

/// The decimal digit character for a value below ten.
pub open spec fn digit_char(d: nat) -> char {
    if d == 0 {
        '0'
    } else if d == 1 {
        '1'
    } else if d == 2 {
        '2'
    } else if d == 3 {
        '3'
    } else if d == 4 {
        '4'
    } else if d == 5 {
        '5'
    } else if d == 6 {
        '6'
    } else if d == 7 {
        '7'
    } else if d == 8 {
        '8'
    } else {
        '9'
    }
}

/// The decimal rendering of a number, most significant digit first.
pub open spec fn dec_seq(n: nat) -> Seq<char>
    decreases n,
{
    if n < 10 {
        seq![digit_char(n)]
    } else {
        dec_seq(n / 10).push(digit_char(n % 10))
    }
}

/// How many decimal digits a number renders to.
pub open spec fn dec_len(n: nat) -> nat {
    dec_seq(n).len()
}

/// The decimal rendering of a number, left-padded with zeros to `width`
/// characters; numbers with more digits than `width` are not truncated.
pub open spec fn zero_pad(n: nat, width: nat) -> Seq<char> {
    if dec_len(n) >= width {
        dec_seq(n)
    } else {
        Seq::new((width - dec_len(n)) as nat, |i: int| '0') + dec_seq(n)
    }
}

/// The one-character string for a decimal digit.
fn digit_str(d: u64) -> (r: &'static str)
    requires
        d < 10,
    ensures
        r@ == seq![digit_char(d as nat)],
{
    if d == 0 {
        proof {
            reveal_strlit("0");
            assert("0"@ =~= seq![digit_char(0)]);
        }
        "0"
    } else if d == 1 {
        proof {
            reveal_strlit("1");
            assert("1"@ =~= seq![digit_char(1)]);
        }
        "1"
    } else if d == 2 {
        proof {
            reveal_strlit("2");
            assert("2"@ =~= seq![digit_char(2)]);
        }
        "2"
    } else if d == 3 {
        proof {
            reveal_strlit("3");
            assert("3"@ =~= seq![digit_char(3)]);
        }
        "3"
    } else if d == 4 {
        proof {
            reveal_strlit("4");
            assert("4"@ =~= seq![digit_char(4)]);
        }
        "4"
    } else if d == 5 {
        proof {
            reveal_strlit("5");
            assert("5"@ =~= seq![digit_char(5)]);
        }
        "5"
    } else if d == 6 {
        proof {
            reveal_strlit("6");
            assert("6"@ =~= seq![digit_char(6)]);
        }
        "6"
    } else if d == 7 {
        proof {
            reveal_strlit("7");
            assert("7"@ =~= seq![digit_char(7)]);
        }
        "7"
    } else if d == 8 {
        proof {
            reveal_strlit("8");
            assert("8"@ =~= seq![digit_char(8)]);
        }
        "8"
    } else {
        proof {
            reveal_strlit("9");
            assert("9"@ =~= seq![digit_char(9)]);
        }
        "9"
    }
}

/// Appends the decimal rendering of `n` to `s`.
pub(crate) fn push_decimal(s: &mut String, n: u64)
    ensures
        final(s)@ == old(s)@ + dec_seq(n as nat),
    decreases n,
{
    if n >= 10 {
        push_decimal(s, n / 10);
    }
    let d: u64 = n % 10;
    let ds: &'static str = digit_str(d);
    s.append(ds);
    proof {
        assert(s@ =~= old(s)@ + dec_seq(n as nat));
    }
}

/// Appends the decimal rendering of `n`, left-padded with zeros to nine
/// characters.
fn push_padded9(s: &mut String, n: u64)
    ensures
        final(s)@ == old(s)@ + zero_pad(n as nat, 9),
{
    proof {
        reveal_with_fuel(dec_seq, 11);
    }
    if n < 10 {
        proof {
            reveal_strlit("00000000");
            assert("00000000"@ =~= Seq::new(8, |i: int| '0'));
        }
        s.append("00000000");
    } else if n < 100 {
        proof {
            reveal_strlit("0000000");
            assert("0000000"@ =~= Seq::new(7, |i: int| '0'));
        }
        s.append("0000000");
    } else if n < 1_000 {
        proof {
            reveal_strlit("000000");
            assert("000000"@ =~= Seq::new(6, |i: int| '0'));
        }
        s.append("000000");
    } else if n < 10_000 {
        proof {
            reveal_strlit("00000");
            assert("00000"@ =~= Seq::new(5, |i: int| '0'));
        }
        s.append("00000");
    } else if n < 100_000 {
        proof {
            reveal_strlit("0000");
            assert("0000"@ =~= Seq::new(4, |i: int| '0'));
        }
        s.append("0000");
    } else if n < 1_000_000 {
        proof {
            reveal_strlit("000");
            assert("000"@ =~= Seq::new(3, |i: int| '0'));
        }
        s.append("000");
    } else if n < 10_000_000 {
        proof {
            reveal_strlit("00");
            assert("00"@ =~= Seq::new(2, |i: int| '0'));
        }
        s.append("00");
    } else if n < 100_000_000 {
        proof {
            reveal_strlit("0");
            assert("0"@ =~= Seq::new(1, |i: int| '0'));
        }
        s.append("0");
    }
    push_decimal(s, n);
    proof {
        assert(s@ =~= old(s)@ + zero_pad(n as nat, 9));
    }
}

/// A strategy for handing out memory identifiers.
///
/// `ids_left` is how many more identifiers the strategy can still produce;
/// strategies with no practical bound report a fixed large number.
pub trait IdGenerationStrategy: Sized {
    spec fn ids_left(&self) -> nat;

    fn generate_id(&mut self) -> (r: String)
        requires
            old(self).ids_left() >= 1,
        ensures
            final(self).ids_left() >= old(self).ids_left() - 1,
    ;
}

/// A counter. Provides identifiers as numbers starting from 1 by default.
pub struct Counter {
    next: u64,
}

impl Counter {
    /// The number the counter will hand out next.
    pub closed spec fn current(&self) -> u64 {
        self.next
    }

    /// Creates a new counter. Starts from 1.
    pub fn new() -> (r: Self)
        ensures
            r.current() == 1,
            r.ids_left() == u64::MAX - 1,
    {
        Counter { next: 1 }
    }

    /// Initialises a counter with a given number.
    pub fn from_number(num: u64) -> (r: Self)
        ensures
            r.current() == num,
            r.ids_left() == u64::MAX - num,
    {
        Counter { next: num }
    }

    /// Returns the current number and advances the counter.
    pub fn get_id(&mut self) -> (r: u64)
        requires
            old(self).current() < u64::MAX,
        ensures
            r == old(self).current(),
            final(self).current() == old(self).current() + 1,
    {
        let num = self.next;
        self.next = self.next + 1;
        num
    }
}

impl Default for Counter {
    /// A fresh counter starting from 1.
    fn default() -> (r: Self)
        ensures
            r.current() == 1,
            r.ids_left() == u64::MAX - 1,
    {
        Counter::new()
    }
}

impl IdGenerationStrategy for Counter {
    closed spec fn ids_left(&self) -> nat {
        (u64::MAX - self.next) as nat
    }

    fn generate_id(&mut self) -> (r: String)
        ensures
            r@ == dec_seq(old(self).current() as nat),
            final(self).current() == old(self).current() + 1,
            final(self).ids_left() == old(self).ids_left() - 1,
    {
        let num = self.get_id();
        let mut s = String::new();
        push_decimal(&mut s, num);
        proof {
            assert(s@ =~= dec_seq(num as nat));
        }
        s
    }
}

/// A generic memory identifier generator. Creates identifiers in the format
/// `<prefix>-<number>`, the number zero-padded to nine digits, using
/// [`Counter`] internally for incrementing.
pub struct MemoryIdGenerator {
    prefix: String,
    counter: Counter,
}

impl MemoryIdGenerator {
    /// The configured prefix.
    pub closed spec fn prefix_spec(&self) -> Seq<char> {
        self.prefix@
    }

    /// The number the next identifier will carry.
    pub closed spec fn counter_current(&self) -> u64 {
        self.counter.current()
    }

    /// A generator with the prefix `mem` and a counter starting from 1.
    pub fn new() -> (r: Self)
        ensures
            r.prefix_spec() == "mem"@,
            r.counter_current() == 1,
            r.ids_left() == u64::MAX - 1,
    {
        MemoryIdGenerator { prefix: String::from_str("mem"), counter: Counter::new() }
    }

    /// Creates an empty builder instance for this struct.
    pub fn builder() -> (r: MemoryIdGeneratorBuilder)
        ensures
            r.prefix_opt() is None,
            r.counter_opt() is None,
    {
        MemoryIdGeneratorBuilder::new()
    }
}

impl Default for MemoryIdGenerator {
    /// The default generator: prefix `mem`, counting from 1.
    fn default() -> (r: Self)
        ensures
            r.prefix_spec() == "mem"@,
            r.counter_current() == 1,
            r.ids_left() == u64::MAX - 1,
    {
        MemoryIdGenerator::new()
    }
}

impl IdGenerationStrategy for MemoryIdGenerator {
    closed spec fn ids_left(&self) -> nat {
        (u64::MAX - self.counter.current()) as nat
    }

    fn generate_id(&mut self) -> (r: String)
        ensures
            r@ == old(self).prefix_spec() + "-"@ + zero_pad(old(self).counter_current() as nat, 9),
            final(self).prefix_spec() == old(self).prefix_spec(),
            final(self).counter_current() == old(self).counter_current() + 1,
            final(self).ids_left() == old(self).ids_left() - 1,
    {
        let num = self.counter.get_id();
        let mut s = self.prefix.clone();
        s.append("-");
        push_padded9(&mut s, num);
        s
    }
}

/// A builder instance for [`MemoryIdGenerator`].
pub struct MemoryIdGeneratorBuilder {
    prefix: Option<String>,
    counter: Option<Counter>,
}

impl MemoryIdGeneratorBuilder {
    /// The prefix configured so far, if any.
    pub closed spec fn prefix_opt(&self) -> Option<Seq<char>> {
        match self.prefix {
            Some(p) => Some(p@),
            None => None,
        }
    }

    /// The counter configured so far, if any.
    pub closed spec fn counter_opt(&self) -> Option<Counter> {
        self.counter
    }

    /// Create a new instance of [`MemoryIdGeneratorBuilder`].
    pub fn new() -> (r: Self)
        ensures
            r.prefix_opt() is None,
            r.counter_opt() is None,
    {
        MemoryIdGeneratorBuilder { prefix: None, counter: None }
    }

    /// Sets a new prefix (for example, `doc` makes identifiers such as
    /// `doc-000000001`).
    pub fn prefix(self, prefix: &str) -> (r: Self)
        ensures
            r.prefix_opt() == Some(prefix@),
            r.counter_opt() == self.counter_opt(),
    {
        MemoryIdGeneratorBuilder { prefix: Some(prefix.to_owned()), counter: self.counter }
    }

    /// Add a counter.
    pub fn counter(self, counter: Counter) -> (r: Self)
        ensures
            r.counter_opt() == Some(counter),
            r.prefix_opt() == self.prefix_opt(),
    {
        MemoryIdGeneratorBuilder { prefix: self.prefix, counter: Some(counter) }
    }

    /// Build the memory identifier generator. A missing prefix falls back to
    /// `mem`, a missing counter to a fresh one starting from 1.
    pub fn build(self) -> (r: MemoryIdGenerator)
        ensures
            r.prefix_spec() == match self.prefix_opt() {
                Some(p) => p,
                None => "mem"@,
            },
            r.counter_current() == match self.counter_opt() {
                Some(c) => c.current(),
                None => 1u64,
            },
            r.ids_left() == u64::MAX - r.counter_current(),
    {
        let prefix = match self.prefix {
            Some(p) => p,
            None => String::from_str("mem"),
        };
        let counter = match self.counter {
            Some(c) => c,
            None => Counter::new(),
        };
        MemoryIdGenerator { prefix, counter }
    }
}

impl Default for MemoryIdGeneratorBuilder {
    /// An empty builder.
    fn default() -> (r: Self)
        ensures
            r.prefix_opt() is None,
            r.counter_opt() is None,
    {
        MemoryIdGeneratorBuilder::new()
    }
}

/// Draws a fresh random version-4 UUID and renders it in the standard
/// hyphenated form.
///
/// Relies on `uuid::Uuid::new_v4` and the `Display` rendering of `Uuid`,
/// which always produces the 36-character hyphenated form.
#[verifier::external_body]
fn uuid_v4_string() -> (r: String)
    ensures
        r@.len() == 36,
{
    uuid::Uuid::new_v4().to_string()
}

/// A strategy that randomly generates version-4 UUIDs.
pub struct UuidV4Generator;

impl IdGenerationStrategy for UuidV4Generator {
    /// Random identifiers have no meaningful bound; report a fixed large
    /// number.
    open spec fn ids_left(&self) -> nat {
        0xffff_ffff_ffff_ffff as nat
    }

    fn generate_id(&mut self) -> (r: String)
        ensures
            r@.len() == 36,
    {
        uuid_v4_string()
    }
}

} // verus!
