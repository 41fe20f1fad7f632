use vstd::prelude::*;
use vstd::utf8::encode_utf8;

verus! {

/// The worker count used when none is given.
pub const DEFAULT_THREADS: u16 = 4;

/// The ASCII code of `0`.
pub const ZERO: u8 = 48;

/// The ASCII code of `9`.
pub const NINE: u8 = 57;

/// The ASCII code of `+`.
pub const PLUS: u8 = 43;

/// The ASCII code of `-`.
pub const DASH: u8 = 45;

/// The ASCII code of `e`.
pub const LOWER_E: u8 = 101;

/// The ASCII code of `h`.
pub const LOWER_H: u8 = 104;

/// The ASCII code of `j`.
pub const LOWER_J: u8 = 106;

/// The ASCII code of `l`.
pub const LOWER_L: u8 = 108;

/// The ASCII code of `p`.
pub const LOWER_P: u8 = 112;

/// An IP address, as its octets (IPv4) or its sixteen-bit segments (IPv6).
#[derive(Clone, Copy, Debug, PartialEq, Eq)]
pub enum Address {
    V4([u8; 4]),
    V6([u16; 8]),
}

/// A validated scan configuration: the target and the number of workers.
#[derive(Clone, Copy, Debug, PartialEq, Eq)]
pub struct Args {
    pub ipaddr: Address,
    pub threads: u16,
}

/// Why a command line gives no scan configuration.
#[derive(Clone, Copy, Debug, PartialEq, Eq)]
pub enum ArgError {
    /// Fewer than two arguments, the program's name included.
    NotEnoughArguments,
    /// More than four arguments, or a help flag that is not alone.
    TooManyArguments,
    /// The help flag alone: usage is wanted, which is no failure.
    Help,
    /// The thread count is not a number from 1 to 65535.
    BadThreadCount,
    /// The target is not an IP address.
    BadAddress,
    /// Any other shape of command line.
    InvalidSyntax,
}

impl ArgError {
    /// The message that describes the error.
    pub fn message(&self) -> (r: &'static str)
        ensures
            *self == ArgError::NotEnoughArguments ==> r@ == "not enough arguments"@,
            *self == ArgError::TooManyArguments ==> r@ == "too many arguments"@,
            *self == ArgError::Help ==> r@ == "help"@,
            *self == ArgError::BadThreadCount ==> r@ == "failed to parse thread number"@,
            *self == ArgError::BadAddress ==> r@ == "not a valid IPADDR; must be IPv4 or IPv6"@,
            *self == ArgError::InvalidSyntax ==> r@ == "invalid syntax"@,
    {
        match self {
            ArgError::NotEnoughArguments => "not enough arguments",
            ArgError::TooManyArguments => "too many arguments",
            ArgError::Help => "help",
            ArgError::BadThreadCount => "failed to parse thread number",
            ArgError::BadAddress => "not a valid IPADDR; must be IPv4 or IPv6",
            ArgError::InvalidSyntax => "invalid syntax",
        }
    }
}

/// Whether `a` and `b` hold the same bytes.
pub fn bytes_equal(a: &[u8], b: &[u8]) -> (r: bool)
    ensures
        r == (a@ == b@),
{
    if a.len() != b.len() {
        return false;
    }
    let mut i: usize = 0;
    while i < a.len()
        invariant
            a@.len() == b@.len(),
            i <= a@.len(),
            forall|k: int| 0 <= k < i ==> a@[k] == b@[k],
        decreases a.len() - i,
    {
        if a[i] != b[i] {
            return false;
        }
        i = i + 1;
    }
    assert(a@ =~= b@);
    true
}

/// Whether every byte of `d` is an ASCII decimal digit.
pub open spec fn all_digits(d: Seq<u8>) -> bool {
    forall|i: int| 0 <= i < d.len() ==> ZERO <= #[trigger] d[i] <= NINE
}

/// The number that the decimal digits `d` write, most significant first.
pub open spec fn digits_value(d: Seq<u8>) -> int
    decreases d.len(),
{
    if d.len() == 0 {
        0
    } else {
        digits_value(d.drop_last()) * 10 + (d.last() - ZERO)
    }
}

/// The digits of a decimal number: `b` without one leading `+`.
pub open spec fn unsigned_digits(b: Seq<u8>) -> Seq<u8> {
    if b.len() > 0 && b[0] == PLUS {
        b.drop_first()
    } else {
        b
    }
}

/// The `u16` that the text `b` writes in decimal: an optional `+`, then at
/// least one digit; `None` for any other text or a value above 65535.
pub open spec fn decimal_u16(b: Seq<u8>) -> Option<u16> {
    let d = unsigned_digits(b);
    if d.len() > 0 && all_digits(d) && digits_value(d) <= u16::MAX {
        Some(digits_value(d) as u16)
    } else {
        None
    }
}

/// Adding digits never makes a number smaller.
proof fn lemma_digits_prefix_le(d: Seq<u8>, j: int)
    requires
        all_digits(d),
        0 <= j <= d.len(),
    ensures
        0 <= digits_value(d.subrange(0, j)) <= digits_value(d),
    decreases d.len(),
{
    if j == d.len() {
        assert(d.subrange(0, j) =~= d);
        lemma_digits_nonneg(d);
    } else {
        let front = d.drop_last();
        assert(front.subrange(0, j) =~= d.subrange(0, j));
        lemma_digits_prefix_le(front, j);
    }
}

/// Digits write a number that is not negative.
proof fn lemma_digits_nonneg(d: Seq<u8>)
    requires
        all_digits(d),
    ensures
        digits_value(d) >= 0,
    decreases d.len(),
{
    if d.len() > 0 {
        lemma_digits_nonneg(d.drop_last());
    }
}

/// Reads a `u16` written in decimal, as `str::parse::<u16>` does.
pub fn parse_u16(b: &[u8]) -> (r: Option<u16>)
    ensures
        r == decimal_u16(b@),
{
    let n: usize = b.len();
    let mut i: usize = 0;
    if n > 0 && b[0] == PLUS {
        i = 1;
    }
    let ghost d = unsigned_digits(b@);
    assert(d =~= b@.subrange(i as int, n as int));
    if i == n {
        return None;
    }
    let start: usize = i;
    let mut acc: u32 = 0;
    while i < n
        invariant
            start <= i <= n,
            n == b@.len(),
            d == b@.subrange(start as int, n as int),
            d == unsigned_digits(b@),
            d.len() > 0,
            all_digits(d.subrange(0, i - start)),
            acc == digits_value(d.subrange(0, i - start)),
            acc <= u16::MAX,
        decreases n - i,
    {
        let c: u8 = b[i];
        if c < ZERO || c > NINE {
            let ghost k: int = i - start;
            assert(d[k] == c);
            assert(!all_digits(d));
            return None;
        }
        let ghost prev = d.subrange(0, i - start);
        let ghost next = d.subrange(0, i - start + 1);
        assert(next.drop_last() =~= prev);
        assert(next.last() == c);
        assert(digits_value(next) == digits_value(prev) * 10 + (c - ZERO));
        acc = acc * 10 + (c - ZERO) as u32;
        i = i + 1;
        assert(all_digits(next));
        assert(acc == digits_value(d.subrange(0, i - start)));
        if acc > 65535 {
            proof {
                if all_digits(d) {
                    lemma_digits_prefix_le(d, (i - start) as int);
                }
            }
            return None;
        }
    }
    assert(d.subrange(0, i - start) =~= d);
    Some(acc as u16)
}

/// The bytes of an argument, in UTF-8.
pub open spec fn arg_bytes(s: String) -> Seq<u8> {
    encode_utf8(s@)
}

/// `-h`.
pub open spec fn short_help() -> Seq<u8> {
    seq![DASH, LOWER_H]
}

/// `--help`.
pub open spec fn long_help() -> Seq<u8> {
    seq![DASH, DASH, LOWER_H, LOWER_E, LOWER_L, LOWER_P]
}

/// `-j`.
pub open spec fn threads_flag() -> Seq<u8> {
    seq![DASH, LOWER_J]
}

/// Whether an argument asks for help: it is `-h` or `--help`.
pub open spec fn asks_help(b: Seq<u8>) -> bool {
    b == short_help() || b == long_help()
}

/// What the command line `args` (the program's name first) asks for, where
/// `addrs[i]` is the IP address that `args[i]` writes, if it writes one.
///
/// `<address>` alone scans with the default worker count; `-j <count>
/// <address>` with the count given, which must be from 1 to 65535; a help
/// flag alone asks for usage; every other shape is refused.
pub open spec fn parse_outcome(args: Seq<String>, addrs: Seq<Option<Address>>) -> Result<
    Args,
    ArgError,
> {
    if args.len() < 2 {
        Err(ArgError::NotEnoughArguments)
    } else if args.len() > 4 {
        Err(ArgError::TooManyArguments)
    } else if addrs[1] is Some {
        if args.len() == 2 {
            Ok(Args { ipaddr: addrs[1]->0, threads: DEFAULT_THREADS })
        } else {
            Err(ArgError::InvalidSyntax)
        }
    } else if asks_help(arg_bytes(args[1])) {
        if args.len() == 2 {
            Err(ArgError::Help)
        } else {
            Err(ArgError::TooManyArguments)
        }
    } else if arg_bytes(args[1]) == threads_flag() {
        if args.len() != 4 {
            Err(ArgError::InvalidSyntax)
        } else {
            match decimal_u16(arg_bytes(args[2])) {
                Some(t) if t > 0 => match addrs[3] {
                    Some(a) => Ok(Args { ipaddr: a, threads: t }),
                    None => Err(ArgError::BadAddress),
                },
                _ => Err(ArgError::BadThreadCount),
            }
        }
    } else {
        Err(ArgError::InvalidSyntax)
    }
}

/// The UTF-8 bytes of `s`.
fn bytes_of(s: &String) -> (r: &[u8])
    ensures
        r@ == arg_bytes(*s),
{
    s.as_str().as_bytes()
}

impl Args {
    /// Reads a scan configuration from the command line `args`, the
    /// program's name first. `addrs[i]` is the IP address that `args[i]`
    /// writes, where it writes one.
    pub fn new(args: &Vec<String>, addrs: &Vec<Option<Address>>) -> (r: Result<Args, ArgError>)
        requires
            addrs@.len() == args@.len(),
        ensures
            r == parse_outcome(args@, addrs@),
            r matches Ok(a) ==> a.threads >= 1,
    {
        if args.len() < 2 {
            return Err(ArgError::NotEnoughArguments);
        } else if args.len() > 4 {
            return Err(ArgError::TooManyArguments);
        }
        if let Some(a) = addrs[1] {
            if args.len() == 2 {
                return Ok(Args { ipaddr: a, threads: DEFAULT_THREADS });
            }
            return Err(ArgError::InvalidSyntax);
        }
        let flag = bytes_of(&args[1]);
        let short: Vec<u8> = vec![DASH, LOWER_H];
        let long: Vec<u8> = vec![DASH, DASH, LOWER_H, LOWER_E, LOWER_L, LOWER_P];
        if bytes_equal(flag, short.as_slice()) || bytes_equal(flag, long.as_slice()) {
            if args.len() == 2 {
                return Err(ArgError::Help);
            }
            return Err(ArgError::TooManyArguments);
        }
        let jflag: Vec<u8> = vec![DASH, LOWER_J];
        if bytes_equal(flag, jflag.as_slice()) {
            if args.len() != 4 {
                return Err(ArgError::InvalidSyntax);
            }
            let threads: u16 = match parse_u16(bytes_of(&args[2])) {
                Some(t) if t > 0 => t,
                _ => return Err(ArgError::BadThreadCount),
            };
            return match addrs[3] {
                Some(a) => Ok(Args { ipaddr: a, threads }),
                None => Err(ArgError::BadAddress),
            };
        }
        Err(ArgError::InvalidSyntax)
    }
}

/// A command line that gives only an IP address scans that address with
/// the default worker count of four.
pub proof fn lemma_default_threads(args: Seq<String>, addrs: Seq<Option<Address>>)
    requires
        args.len() == 2,
        addrs.len() == 2,
        addrs[1] is Some,
    ensures
        parse_outcome(args, addrs) == Ok::<Args, ArgError>(
            Args { ipaddr: addrs[1]->0, threads: 4 },
        ),
{
}

} // verus!
