use vstd::prelude::*;
use vstd::string::StringSliceAdditionalSpecFns;

verus! {

/// Elapsed time as whole seconds plus the nanoseconds of the last,
/// unfinished second.
#[derive(Debug, Clone, Copy, PartialEq, Eq, Structural)]
pub struct Elapsed {
    pub secs: u64,
    pub nanos: u32,
}

pub open spec fn digit(d: nat) -> char {
    seq!['0', '1', '2', '3', '4', '5', '6', '7', '8', '9'][d as int]
}

/// The decimal digits of `n`, without leading zeros.
pub open spec fn decimal(n: nat) -> Seq<char>
    decreases n,
{
    if n < 10 {
        seq![digit(n)]
    } else {
        decimal(n / 10).push(digit(n % 10))
    }
}

/// `n` copies of `-`.
pub open spec fn dashes(n: nat) -> Seq<char> {
    Seq::new(n, |_i: int| '-')
}

/// `msg` between two runs of dashes, padded to about `width` bytes.
pub open spec fn header_text(msg: Seq<char>, msg_bytes: nat, width: nat) -> Seq<char> {
    let n = ((width - msg_bytes - 2) / 2) as nat;
    dashes(n) + seq![' '] + msg + seq![' '] + dashes(n)
}

/// `Nh Mm Ss`, where `S` is the whole number of seconds.
pub open spec fn clock_text(secs: nat) -> Seq<char> {
    decimal(secs / 60 / 60) + seq!['h', ' '] + decimal(secs / 60 % 60) + seq!['m', ' ']
        + decimal(secs) + seq!['s']
}

/// The text that `Debug` with two decimals gives for a duration of
/// `nanos` nanoseconds.
pub uninterp spec fn subsecond_text(nanos: nat) -> Seq<char>;

/// Relies on the `Debug` impl of `std::time::Duration` (with precision 2),
/// whose text depends on the duration alone.
#[verifier::external_body]
fn format_subsecond(nanos: u32) -> (r: String)
    ensures
        r@ == subsecond_text(nanos as nat),
{
    format!("{:.2?}", std::time::Duration::from_nanos(nanos as u64))
}

fn digit_str(d: u64) -> (r: &'static str)
    requires
        d < 10,
    ensures
        r@ == seq![digit(d as nat)],
{
    let all = "0123456789";
    proof {
        reveal_strlit("0123456789");
    }
    let r = all.substring_char(d as usize, d as usize + 1);
    assert(r@ =~= seq![digit(d as nat)]);
    r
}

/// The decimal text of `n`.
pub fn decimal_text(n: u64) -> (r: String)
    ensures
        r@ == decimal(n as nat),
    decreases n,
{
    if n < 10 {
        digit_str(n).to_owned()
    } else {
        let mut s = decimal_text(n / 10);
        s.append(digit_str(n % 10));
        s
    }
}

/// A line with `msg` centred between dashes, as wide as `width` for an
/// ASCII message.
pub fn header_line(msg: &str, width: usize) -> (r: String)
    requires
        msg.spec_bytes().len() + 2 <= width,
    ensures
        r@ == header_text(msg@, msg.spec_bytes().len(), width as nat),
{
    let n = (width - msg.len() - 2) / 2;
    let mut side = String::new();
    let mut i: usize = 0;
    while i < n
        invariant
            i <= n,
            side@ == dashes(i as nat),
        decreases n - i,
    {
        let dash = "-";
        proof {
            reveal_strlit("-");
        }
        side.append(dash);
        assert(side@ =~= dashes((i + 1) as nat));
        i = i + 1;
    }
    let space = " ";
    proof {
        reveal_strlit(" ");
    }
    let mut r = side.clone();
    r.append(space);
    r.append(msg);
    r.append(space);
    r.append(side.as_str());
    assert(r@ =~= header_text(msg@, msg.spec_bytes().len(), width as nat));
    r
}

/// `Nh Mm Ss` for a duration of a second or more, else the duration with
/// two decimals in its best unit (such as `1.50ms`).
pub fn format_duration(duration: &Elapsed) -> (r: String)
    ensures
        duration.secs >= 1 ==> r@ == clock_text(duration.secs as nat),
        duration.secs < 1 ==> r@ == subsecond_text(duration.nanos as nat),
{
    let secs = duration.secs;
    if secs >= 1 {
        let minutes = (secs / 60) % 60;
        let hours = (secs / 60) / 60;
        let h = "h ";
        let m = "m ";
        let s = "s";
        proof {
            reveal_strlit("h ");
            reveal_strlit("m ");
            reveal_strlit("s");
        }
        let mut r = decimal_text(hours);
        r.append(h);
        r.append(decimal_text(minutes).as_str());
        r.append(m);
        r.append(decimal_text(secs).as_str());
        r.append(s);
        assert(r@ =~= clock_text(secs as nat));
        r
    } else {
        format_subsecond(duration.nanos)
    }
}

} // verus!
