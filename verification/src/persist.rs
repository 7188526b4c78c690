//! A stored text form for hangars.
//!
//! The session may save a hangar and load it back later. The text form is
//! length-prefixed: every string is written as its decimal character count, a
//! `:`, then the characters themselves, so no character of the content needs
//! escaping; counted lists (arguments, flights) are written as a count and
//! then that many items, and the inspected stream as a single tag character.
//! Encoding and decoding are exact inverses, which is proved below. Reading
//! and writing the file itself is outside work: the surrounding program hands
//! the text in and out and maps its I/O failures to [`PersistError`].

use vstd::prelude::*;

use crate::models::{Flight, FlightSpec, Hangar, HangarSpec, OutputStream};
use crate::text::push_char;

verus! {

/// Why saving or loading a hangar failed: the file was absent, its text did
/// not hold a hangar, or reading or writing it failed.
#[derive(PartialEq, Eq, Structural, Clone, Copy, Debug)]
pub enum PersistError {
    NotFound,
    Malformed,
    IOFailure,
}

/// The character for one decimal digit.
pub open spec fn digit_char(d: nat) -> char {
    if d == 0 {
        '0'
    } else if d == 1 {
        '1'
    } else if d == 2 {
        '2'
    } else if d == 3 {
        '3'
    } else if d == 4 {
        '4'
    } else if d == 5 {
        '5'
    } else if d == 6 {
        '6'
    } else if d == 7 {
        '7'
    } else if d == 8 {
        '8'
    } else {
        '9'
    }
}

/// The decimal digit a character stands for, if any.
pub open spec fn digit_of(c: char) -> Option<nat> {
    if c == '0' {
        Some(0 as nat)
    } else if c == '1' {
        Some(1 as nat)
    } else if c == '2' {
        Some(2 as nat)
    } else if c == '3' {
        Some(3 as nat)
    } else if c == '4' {
        Some(4 as nat)
    } else if c == '5' {
        Some(5 as nat)
    } else if c == '6' {
        Some(6 as nat)
    } else if c == '7' {
        Some(7 as nat)
    } else if c == '8' {
        Some(8 as nat)
    } else if c == '9' {
        Some(9 as nat)
    } else {
        None
    }
}

/// The decimal digits of `n`, most significant first.
pub open spec fn dec_digits(n: nat) -> Seq<char>
    decreases n,
{
    if n < 10 {
        seq![digit_char(n)]
    } else {
        dec_digits(n / 10).push(digit_char(n % 10))
    }
}

/// A count written out: its digits and a closing `:`.
pub open spec fn encode_nat_spec(n: nat) -> Seq<char> {
    dec_digits(n) + seq![':']
}

/// A string written out: its character count, then its characters.
pub open spec fn encode_str_spec(s: Seq<char>) -> Seq<char> {
    encode_nat_spec(s.len()) + s
}

/// Read digits up to a `:`, most significant first, on top of `acc`. A count
/// beyond the machine's range is malformed.
pub open spec fn parse_len(s: Seq<char>, acc: nat) -> Option<(nat, Seq<char>)>
    decreases s.len(),
{
    if s.len() == 0 {
        None
    } else if s[0] == ':' {
        Some((acc, s.skip(1)))
    } else {
        match digit_of(s[0]) {
            Some(d) => if acc * 10 + d <= usize::MAX {
                parse_len(s.skip(1), acc * 10 + d)
            } else {
                None
            },
            None => None,
        }
    }
}

/// Read a counted string: its character count, then that many characters.
pub open spec fn parse_str(s: Seq<char>) -> Option<(Seq<char>, Seq<char>)> {
    match parse_len(s, 0) {
        Some((n, rest)) => if n <= rest.len() {
            Some((rest.take(n as int), rest.skip(n as int)))
        } else {
            None
        },
        None => None,
    }
}

/// Ten to the `k`.
pub open spec fn pow10(k: nat) -> nat
    decreases k,
{
    if k == 0 {
        1
    } else {
        10 * pow10((k - 1) as nat)
    }
}

/// How many decimal digits `n` is written with.
pub open spec fn ndigits(n: nat) -> nat
    decreases n,
{
    if n < 10 {
        1
    } else {
        1 + ndigits(n / 10)
    }
}

/// Reading the digits of `n` accumulates `n` onto `acc`, shifted past them.
proof fn lemma_parse_digits(n: nat, s: Seq<char>, acc: nat)
    requires
        acc * pow10(ndigits(n)) + n <= usize::MAX,
    ensures
        parse_len(dec_digits(n) + s, acc) == parse_len(s, acc * pow10(ndigits(n)) + n),
    decreases n,
{
    if n < 10 {
        let t = dec_digits(n) + s;
        assert(t[0] == digit_char(n));
        assert(digit_of(digit_char(n)) == Some(n));
        assert(pow10(0) == 1);
        assert(pow10(1) == 10);
        assert(t.skip(1) =~= s);
    } else {
        let d = n % 10;
        let q = n / 10;
        let k = ndigits(n);
        vstd::arithmetic::div_mod::lemma_fundamental_div_mod(n as int, 10);
        assert(q < n);
        assert(ndigits(q) == (k - 1) as nat);
        assert(acc * pow10((k - 1) as nat) * 10 == acc * pow10(k)) by (nonlinear_arith)
            requires
                pow10(k) == 10 * pow10((k - 1) as nat),
        ;
        assert((acc * pow10((k - 1) as nat) + q) * 10 + d == acc * pow10(k) + n)
            by (nonlinear_arith)
            requires
                acc * pow10((k - 1) as nat) * 10 == acc * pow10(k),
                q * 10 + d == n,
        ;
        assert(dec_digits(n) + s =~= dec_digits(q) + (seq![digit_char(d)] + s));
        lemma_parse_digits(q, seq![digit_char(d)] + s, acc);
        let acc1 = acc * pow10((k - 1) as nat) + q;
        let t = seq![digit_char(d)] + s;
        assert(t[0] == digit_char(d));
        assert(digit_of(digit_char(d)) == Some(d));
        assert(t.skip(1) =~= s);
        assert(parse_len(t, acc1) == parse_len(s, acc1 * 10 + d));
    }
}

/// Reading an encoded count gives the count back and leaves the tail.
proof fn lemma_parse_encoded_nat(n: nat, tail: Seq<char>)
    requires
        n <= usize::MAX,
    ensures
        parse_len(encode_nat_spec(n) + tail, 0) == Some((n, tail)),
{
    assert(encode_nat_spec(n) + tail =~= dec_digits(n) + (seq![':'] + tail));
    assert(0 * pow10(ndigits(n)) + n == n) by (nonlinear_arith);
    lemma_parse_digits(n, seq![':'] + tail, 0);
    let t = seq![':'] + tail;
    assert(t[0] == ':');
    assert(t.skip(1) =~= tail);
}

/// Reading an encoded string gives the string back and leaves the tail.
proof fn lemma_parse_encoded_str(s: Seq<char>, tail: Seq<char>)
    requires
        s.len() <= usize::MAX,
    ensures
        parse_str(encode_str_spec(s) + tail) == Some((s, tail)),
{
    assert(encode_str_spec(s) + tail =~= encode_nat_spec(s.len()) + (s + tail));
    lemma_parse_encoded_nat(s.len(), s + tail);
    assert((s + tail).take(s.len() as int) =~= s);
    assert((s + tail).skip(s.len() as int) =~= tail);
}

/// The inspected stream as one tag character.
pub open spec fn stream_char(st: OutputStream) -> char {
    match st {
        OutputStream::Stdout => 'o',
        OutputStream::Stderr => 'e',
    }
}

/// A list of strings written out one after the other.
pub open spec fn encode_strs_spec(items: Seq<Seq<char>>) -> Seq<char>
    decreases items.len(),
{
    if items.len() == 0 {
        Seq::<char>::empty()
    } else {
        encode_strs_spec(items.drop_last()) + encode_str_spec(items.last())
    }
}

/// One flight written out: name, executable, the counted argument list, the
/// stream tag, then marker, package name and reinstall template.
pub open spec fn encode_flight_spec(f: FlightSpec) -> Seq<char> {
    encode_str_spec(f.name) + encode_str_spec(f.flight_exec) + encode_nat_spec(
        f.preflight_args.len(),
    ) + encode_strs_spec(f.preflight_args) + seq![stream_char(f.stream)] + encode_str_spec(f.flag)
        + encode_str_spec(f.package_name) + encode_str_spec(f.reinstall)
}

/// A list of flights written out one after the other.
pub open spec fn encode_flights_spec(flights: Seq<FlightSpec>) -> Seq<char>
    decreases flights.len(),
{
    if flights.len() == 0 {
        Seq::<char>::empty()
    } else {
        encode_flights_spec(flights.drop_last()) + encode_flight_spec(flights.last())
    }
}

/// A hangar written out: name, description, then the counted flight list.
pub open spec fn encode_hangar_spec(h: HangarSpec) -> Seq<char> {
    encode_str_spec(h.name) + encode_str_spec(h.description) + encode_nat_spec(h.flights.len())
        + encode_flights_spec(h.flights)
}

/// Read a stream tag character.
pub open spec fn parse_stream_tag(s: Seq<char>) -> Option<(OutputStream, Seq<char>)> {
    if s.len() == 0 {
        None
    } else if s[0] == 'o' {
        Some((OutputStream::Stdout, s.skip(1)))
    } else if s[0] == 'e' {
        Some((OutputStream::Stderr, s.skip(1)))
    } else {
        None
    }
}

/// Read `count` counted strings, one after the other.
pub open spec fn parse_strs(s: Seq<char>, count: nat) -> Option<(Seq<Seq<char>>, Seq<char>)>
    decreases count,
{
    if count == 0 {
        Some((Seq::<Seq<char>>::empty(), s))
    } else {
        match parse_str(s) {
            Some((a, rest)) => match parse_strs(rest, (count - 1) as nat) {
                Some((more, rest2)) => Some((seq![a] + more, rest2)),
                None => None,
            },
            None => None,
        }
    }
}

/// Read one flight. A flight whose stored name or executable is empty is
/// malformed: it could never have been constructed.
pub open spec fn parse_flight(s: Seq<char>) -> Option<(FlightSpec, Seq<char>)> {
    match parse_str(s) {
        Some((name, s1)) => match parse_str(s1) {
            Some((flight_exec, s2)) => match parse_len(s2, 0) {
                Some((argc, s3)) => match parse_strs(s3, argc) {
                    Some((preflight_args, s4)) => match parse_stream_tag(s4) {
                        Some((stream, s5)) => match parse_str(s5) {
                            Some((flag, s6)) => match parse_str(s6) {
                                Some((package_name, s7)) => match parse_str(s7) {
                                    Some((reinstall, s8)) => if name.len() == 0
                                        || flight_exec.len() == 0 {
                                        None
                                    } else {
                                        Some(
                                            (
                                                FlightSpec {
                                                    name,
                                                    flight_exec,
                                                    preflight_args,
                                                    stream,
                                                    flag,
                                                    package_name,
                                                    reinstall,
                                                },
                                                s8,
                                            ),
                                        )
                                    },
                                    None => None,
                                },
                                None => None,
                            },
                            None => None,
                        },
                        None => None,
                    },
                    None => None,
                },
                None => None,
            },
            None => None,
        },
        None => None,
    }
}

/// Read `count` flights, one after the other.
pub open spec fn parse_flights(s: Seq<char>, count: nat) -> Option<(Seq<FlightSpec>, Seq<char>)>
    decreases count,
{
    if count == 0 {
        Some((Seq::<FlightSpec>::empty(), s))
    } else {
        match parse_flight(s) {
            Some((f, rest)) => match parse_flights(rest, (count - 1) as nat) {
                Some((more, rest2)) => Some((seq![f] + more, rest2)),
                None => None,
            },
            None => None,
        }
    }
}

/// The hangar a text holds, if it holds exactly one: name, description and
/// the counted flight list, with nothing left over and a non-empty name.
pub open spec fn decode_hangar_spec(s: Seq<char>) -> Option<HangarSpec> {
    match parse_str(s) {
        Some((name, s1)) => match parse_str(s1) {
            Some((description, s2)) => match parse_len(s2, 0) {
                Some((count, s3)) => match parse_flights(s3, count) {
                    Some((flights, s4)) => if name.len() == 0 || s4.len() != 0 {
                        None
                    } else {
                        Some(HangarSpec { name, description, flights })
                    },
                    None => None,
                },
                None => None,
            },
            None => None,
        },
        None => None,
    }
}

/// Every count in this flight fits the machine's range (true of the value of
/// any flight held in memory).
pub open spec fn flight_bounded(f: FlightSpec) -> bool {
    &&& f.name.len() <= usize::MAX
    &&& f.flight_exec.len() <= usize::MAX
    &&& f.preflight_args.len() <= usize::MAX
    &&& forall|i: int|
        0 <= i < f.preflight_args.len() ==> #[trigger] f.preflight_args[i].len() <= usize::MAX
    &&& f.flag.len() <= usize::MAX
    &&& f.package_name.len() <= usize::MAX
    &&& f.reinstall.len() <= usize::MAX
}

/// Every count in this hangar fits the machine's range.
pub open spec fn hangar_bounded(h: HangarSpec) -> bool {
    &&& h.name.len() <= usize::MAX
    &&& h.description.len() <= usize::MAX
    &&& h.flights.len() <= usize::MAX
    &&& forall|i: int| 0 <= i < h.flights.len() ==> flight_bounded(#[trigger] h.flights[i])
}

proof fn lemma_encode_strs_left(items: Seq<Seq<char>>)
    requires
        items.len() > 0,
    ensures
        encode_strs_spec(items) == encode_str_spec(items[0]) + encode_strs_spec(items.skip(1)),
    decreases items.len(),
{
    if items.len() == 1 {
        assert(items.drop_last() =~= Seq::<Seq<char>>::empty());
        assert(items.skip(1) =~= Seq::<Seq<char>>::empty());
        assert(items.last() == items[0]);
        assert(encode_strs_spec(items) =~= encode_str_spec(items[0]) + encode_strs_spec(
            items.skip(1),
        ));
    } else {
        lemma_encode_strs_left(items.drop_last());
        assert(items.drop_last()[0] == items[0]);
        assert(items.drop_last().skip(1) =~= items.skip(1).drop_last());
        assert(items.skip(1).last() == items.last());
        assert(encode_strs_spec(items) =~= encode_str_spec(items[0]) + encode_strs_spec(
            items.skip(1),
        ));
    }
}

proof fn lemma_parse_encoded_strs(items: Seq<Seq<char>>, tail: Seq<char>)
    requires
        forall|i: int| 0 <= i < items.len() ==> #[trigger] items[i].len() <= usize::MAX,
    ensures
        parse_strs(encode_strs_spec(items) + tail, items.len()) == Some((items, tail)),
    decreases items.len(),
{
    if items.len() == 0 {
        assert(encode_strs_spec(items) + tail =~= tail);
        assert(items =~= Seq::<Seq<char>>::empty());
    } else {
        lemma_encode_strs_left(items);
        assert(encode_strs_spec(items) + tail =~= encode_str_spec(items[0]) + (encode_strs_spec(
            items.skip(1),
        ) + tail));
        lemma_parse_encoded_str(items[0], encode_strs_spec(items.skip(1)) + tail);
        assert(forall|i: int|
            0 <= i < items.skip(1).len() ==> #[trigger] items.skip(1)[i].len() <= usize::MAX);
        lemma_parse_encoded_strs(items.skip(1), tail);
        assert(seq![items[0]] + items.skip(1) =~= items);
    }
}

#[verifier::rlimit(50)]
proof fn lemma_parse_encoded_flight(f: FlightSpec, tail: Seq<char>)
    requires
        f.wf(),
        flight_bounded(f),
    ensures
        parse_flight(encode_flight_spec(f) + tail) == Some((f, tail)),
{
    let rest7 = encode_str_spec(f.reinstall) + tail;
    let rest6 = encode_str_spec(f.package_name) + rest7;
    let rest5 = encode_str_spec(f.flag) + rest6;
    let rest4 = seq![stream_char(f.stream)] + rest5;
    let rest3 = encode_strs_spec(f.preflight_args) + rest4;
    let rest2 = encode_nat_spec(f.preflight_args.len()) + rest3;
    let rest1 = encode_str_spec(f.flight_exec) + rest2;
    let s0 = encode_flight_spec(f) + tail;
    assert(s0 =~= encode_str_spec(f.name) + rest1);
    lemma_parse_encoded_str(f.name, rest1);
    assert(parse_str(s0) == Some((f.name, rest1)));
    lemma_parse_encoded_str(f.flight_exec, rest2);
    assert(parse_str(rest1) == Some((f.flight_exec, rest2)));
    lemma_parse_encoded_nat(f.preflight_args.len(), rest3);
    assert(parse_len(rest2, 0) == Some((f.preflight_args.len(), rest3)));
    lemma_parse_encoded_strs(f.preflight_args, rest4);
    assert(parse_strs(rest3, f.preflight_args.len()) == Some((f.preflight_args, rest4)));
    assert(rest4[0] == stream_char(f.stream));
    assert(rest4.skip(1) =~= rest5);
    assert(parse_stream_tag(rest4) == Some((f.stream, rest5)));
    lemma_parse_encoded_str(f.flag, rest6);
    assert(parse_str(rest5) == Some((f.flag, rest6)));
    lemma_parse_encoded_str(f.package_name, rest7);
    assert(parse_str(rest6) == Some((f.package_name, rest7)));
    lemma_parse_encoded_str(f.reinstall, tail);
    assert(parse_str(rest7) == Some((f.reinstall, tail)));
}

proof fn lemma_encode_flights_left(flights: Seq<FlightSpec>)
    requires
        flights.len() > 0,
    ensures
        encode_flights_spec(flights) == encode_flight_spec(flights[0]) + encode_flights_spec(
            flights.skip(1),
        ),
    decreases flights.len(),
{
    if flights.len() == 1 {
        assert(flights.drop_last() =~= Seq::<FlightSpec>::empty());
        assert(flights.skip(1) =~= Seq::<FlightSpec>::empty());
        assert(flights.last() == flights[0]);
        assert(encode_flights_spec(flights) =~= encode_flight_spec(flights[0])
            + encode_flights_spec(flights.skip(1)));
    } else {
        lemma_encode_flights_left(flights.drop_last());
        assert(flights.drop_last()[0] == flights[0]);
        assert(flights.drop_last().skip(1) =~= flights.skip(1).drop_last());
        assert(flights.skip(1).last() == flights.last());
        assert(encode_flights_spec(flights) =~= encode_flight_spec(flights[0])
            + encode_flights_spec(flights.skip(1)));
    }
}

proof fn lemma_parse_encoded_flights(flights: Seq<FlightSpec>, tail: Seq<char>)
    requires
        forall|i: int| 0 <= i < flights.len() ==> (#[trigger] flights[i]).wf(),
        forall|i: int| 0 <= i < flights.len() ==> flight_bounded(#[trigger] flights[i]),
    ensures
        parse_flights(encode_flights_spec(flights) + tail, flights.len()) == Some((flights, tail)),
    decreases flights.len(),
{
    if flights.len() == 0 {
        assert(encode_flights_spec(flights) + tail =~= tail);
        assert(flights =~= Seq::<FlightSpec>::empty());
    } else {
        lemma_encode_flights_left(flights);
        assert(encode_flights_spec(flights) + tail =~= encode_flight_spec(flights[0]) + (
        encode_flights_spec(flights.skip(1)) + tail));
        lemma_parse_encoded_flight(flights[0], encode_flights_spec(flights.skip(1)) + tail);
        assert(forall|i: int| 0 <= i < flights.skip(1).len() ==> (#[trigger] flights.skip(
            1,
        )[i]).wf());
        assert(forall|i: int|
            0 <= i < flights.skip(1).len() ==> flight_bounded(#[trigger] flights.skip(1)[i]));
        lemma_parse_encoded_flights(flights.skip(1), tail);
        assert(seq![flights[0]] + flights.skip(1) =~= flights);
    }
}

/// Round trip: decoding an encoded hangar yields exactly the hangar that was
/// encoded — whatever its texts hold, provided its name and its flights'
/// names and executables are given, as they are in every hangar the library
/// constructs.
pub proof fn lemma_encode_decode_round_trip(h: HangarSpec)
    requires
        h.wf(),
        hangar_bounded(h),
        forall|i: int| 0 <= i < h.flights.len() ==> (#[trigger] h.flights[i]).wf(),
    ensures
        decode_hangar_spec(encode_hangar_spec(h)) == Some(h),
{
    let rest3 = encode_flights_spec(h.flights) + Seq::<char>::empty();
    let rest2 = encode_nat_spec(h.flights.len()) + rest3;
    let rest1 = encode_str_spec(h.description) + rest2;
    assert(encode_hangar_spec(h) =~= encode_str_spec(h.name) + rest1);
    lemma_parse_encoded_str(h.name, rest1);
    lemma_parse_encoded_str(h.description, rest2);
    lemma_parse_encoded_nat(h.flights.len(), rest3);
    lemma_parse_encoded_flights(h.flights, Seq::<char>::empty());
    assert(encode_flights_spec(h.flights) + Seq::<char>::empty() =~= encode_flights_spec(
        h.flights,
    ));
}

fn digit_char_exec(d: usize) -> (c: char)
    requires
        d < 10,
    ensures
        c == digit_char(d as nat),
{
    if d == 0 {
        '0'
    } else if d == 1 {
        '1'
    } else if d == 2 {
        '2'
    } else if d == 3 {
        '3'
    } else if d == 4 {
        '4'
    } else if d == 5 {
        '5'
    } else if d == 6 {
        '6'
    } else if d == 7 {
        '7'
    } else if d == 8 {
        '8'
    } else {
        '9'
    }
}

/// Append `n` as decimal digits and a closing `:`.
fn encode_nat(n: usize, out: &mut String)
    ensures
        final(out)@ == old(out)@ + encode_nat_spec(n as nat),
{
    let mut digits_le: Vec<char> = Vec::new();
    let mut m: usize = n;
    proof {
        assert(dec_digits(n as nat) =~= dec_digits(m as nat) + digits_le@.reverse());
    }
    while m >= 10
        invariant
            dec_digits(n as nat) == dec_digits(m as nat) + digits_le@.reverse(),
        decreases m,
    {
        let ghost old_m = m as nat;
        let ghost old_digits = digits_le@;
        let d = m % 10;
        digits_le.push(digit_char_exec(d));
        m = m / 10;
        proof {
            assert(dec_digits(old_m) =~= dec_digits(m as nat) + seq![digit_char(d as nat)]);
            assert(digits_le@.reverse() =~= seq![digit_char(d as nat)] + old_digits.reverse());
            assert(dec_digits(m as nat) + digits_le@.reverse() =~= (dec_digits(m as nat) + seq![
                digit_char(d as nat),
            ]) + old_digits.reverse());
        }
    }
    let ghost mid_digits = digits_le@;
    digits_le.push(digit_char_exec(m));
    proof {
        assert(dec_digits(m as nat) =~= seq![digit_char(m as nat)]);
        assert(digits_le@.reverse() =~= seq![digit_char(m as nat)] + mid_digits.reverse());
        assert(dec_digits(n as nat) =~= digits_le@.reverse());
    }
    let total = digits_le.len();
    let mut j: usize = total;
    proof {
        assert(digits_le@.skip(total as int).reverse() =~= Seq::<char>::empty());
        assert(out@ + digits_le@.skip(total as int).reverse() =~= out@);
    }
    while j > 0
        invariant
            j <= total,
            total == digits_le@.len(),
            out@ == old(out)@ + digits_le@.skip(j as int).reverse(),
        decreases j,
    {
        let ghost before = out@;
        push_char(out, digits_le[j - 1]);
        proof {
            assert(digits_le@.skip(j - 1) =~= seq![digits_le@[j - 1]] + digits_le@.skip(j as int));
            assert(digits_le@.skip(j - 1).reverse() =~= digits_le@.skip(j as int).reverse() + seq![
                digits_le@[j - 1],
            ]);
            assert(before + seq![digits_le@[j - 1]] =~= old(out)@ + digits_le@.skip(
                j - 1,
            ).reverse());
        }
        j = j - 1;
    }
    proof {
        assert(digits_le@.skip(0).reverse() =~= digits_le@.reverse());
        assert(out@ =~= old(out)@ + dec_digits(n as nat));
    }
    push_char(out, ':');
    proof {
        assert(out@ =~= old(out)@ + encode_nat_spec(n as nat));
    }
}

/// Append a string: its character count, then its characters.
fn encode_str(s: &str, out: &mut String)
    ensures
        final(out)@ == old(out)@ + encode_str_spec(s@),
{
    let len = s.unicode_len();
    encode_nat(len, out);
    out.append(s);
    proof {
        assert(out@ =~= old(out)@ + encode_str_spec(s@));
    }
}

/// Append one flight's stored form.
fn encode_flight(f: &Flight, out: &mut String)
    ensures
        final(out)@ == old(out)@ + encode_flight_spec(f@),
{
    encode_str(f.name.as_str(), out);
    encode_str(f.flight_exec.as_str(), out);
    encode_nat(f.preflight_args.len(), out);
    let ghost base = out@;
    let mut i: usize = 0;
    proof {
        assert(base + encode_strs_spec(f@.preflight_args.take(0)) =~= base);
    }
    while i < f.preflight_args.len()
        invariant
            i <= f.preflight_args@.len(),
            f@ == f.view(),
            out@ == base + encode_strs_spec(f@.preflight_args.take(i as int)),
        decreases f.preflight_args@.len() - i,
    {
        let ghost before = out@;
        encode_str(f.preflight_args[i].as_str(), out);
        proof {
            let args = f@.preflight_args;
            assert(args.take(i + 1).drop_last() =~= args.take(i as int));
            assert(args.take(i + 1).last() == args[i as int]);
            assert(args[i as int] == f.preflight_args@[i as int]@);
            assert(before + encode_str_spec(args[i as int]) =~= base + encode_strs_spec(
                args.take(i + 1),
            ));
        }
        i = i + 1;
    }
    proof {
        assert(f@.preflight_args.take(f.preflight_args@.len() as int) =~= f@.preflight_args);
    }
    let tag = match f.stream {
        OutputStream::Stdout => 'o',
        OutputStream::Stderr => 'e',
    };
    push_char(out, tag);
    encode_str(f.flag.as_str(), out);
    encode_str(f.package_name.as_str(), out);
    encode_str(f.reinstall.as_str(), out);
    proof {
        assert(out@ =~= old(out)@ + encode_flight_spec(f@));
    }
}

/// A hangar's stored text form.
pub fn encode_hangar(h: &Hangar) -> (r: String)
    ensures
        r@ == encode_hangar_spec(h@),
{
    let mut out = String::new();
    encode_str(h.name.as_str(), &mut out);
    encode_str(h.description.as_str(), &mut out);
    encode_nat(h.flights.len(), &mut out);
    let ghost base = out@;
    let mut i: usize = 0;
    proof {
        assert(base + encode_flights_spec(h@.flights.take(0)) =~= base);
    }
    while i < h.flights.len()
        invariant
            i <= h.flights@.len(),
            h@ == h.view(),
            out@ == base + encode_flights_spec(h@.flights.take(i as int)),
        decreases h.flights@.len() - i,
    {
        let ghost before = out@;
        encode_flight(&h.flights[i], &mut out);
        proof {
            let flights = h@.flights;
            assert(flights.take(i + 1).drop_last() =~= flights.take(i as int));
            assert(flights.take(i + 1).last() == flights[i as int]);
            assert(flights[i as int] == h.flights@[i as int]@);
            assert(before + encode_flight_spec(flights[i as int]) =~= base + encode_flights_spec(
                flights.take(i + 1),
            ));
        }
        i = i + 1;
    }
    proof {
        assert(h@.flights.take(h.flights@.len() as int) =~= h@.flights);
        assert(out@ =~= encode_hangar_spec(h@));
    }
    out
}

proof fn lemma_parse_len_shrinks(s: Seq<char>, acc: nat)
    ensures
        parse_len(s, acc) matches Some(r) ==> r.1.len() < s.len(),
    decreases s.len(),
{
    if s.len() == 0 {
    } else if s[0] == ':' {
    } else {
        match digit_of(s[0]) {
            Some(d) => {
                if acc * 10 + d <= usize::MAX {
                    lemma_parse_len_shrinks(s.skip(1), acc * 10 + d);
                }
            },
            None => {},
        }
    }
}

proof fn lemma_parse_str_shrinks(s: Seq<char>)
    ensures
        parse_str(s) matches Some(r) ==> r.1.len() < s.len(),
{
    lemma_parse_len_shrinks(s, 0);
}

proof fn lemma_parse_strs_mono(s: Seq<char>, count: nat)
    ensures
        parse_strs(s, count) matches Some(r) ==> r.1.len() <= s.len(),
    decreases count,
{
    if count > 0 {
        match parse_str(s) {
            Some((a, rest)) => {
                lemma_parse_str_shrinks(s);
                lemma_parse_strs_mono(rest, (count - 1) as nat);
            },
            None => {},
        }
    }
}

proof fn lemma_parse_strs_short(s: Seq<char>, count: nat)
    requires
        count > s.len(),
    ensures
        parse_strs(s, count) is None,
    decreases count,
{
    match parse_str(s) {
        Some((a, rest)) => {
            lemma_parse_str_shrinks(s);
            lemma_parse_strs_short(rest, (count - 1) as nat);
        },
        None => {},
    }
}

proof fn lemma_parse_flight_shrinks(s: Seq<char>)
    ensures
        parse_flight(s) matches Some(r) ==> r.1.len() < s.len(),
{
    lemma_parse_str_shrinks(s);
    match parse_str(s) {
        Some((name, s1)) => {
            lemma_parse_str_shrinks(s1);
            match parse_str(s1) {
                Some((flight_exec, s2)) => {
                    lemma_parse_len_shrinks(s2, 0);
                    match parse_len(s2, 0) {
                        Some((argc, s3)) => {
                            lemma_parse_strs_mono(s3, argc);
                            match parse_strs(s3, argc) {
                                Some((args, s4)) => {
                                    match parse_stream_tag(s4) {
                                        Some((st, s5)) => {
                                            lemma_parse_str_shrinks(s5);
                                            match parse_str(s5) {
                                                Some((flag, s6)) => {
                                                    lemma_parse_str_shrinks(s6);
                                                    match parse_str(s6) {
                                                        Some((package_name, s7)) => {
                                                            lemma_parse_str_shrinks(s7);
                                                        },
                                                        None => {},
                                                    }
                                                },
                                                None => {},
                                            }
                                        },
                                        None => {},
                                    }
                                },
                                None => {},
                            }
                        },
                        None => {},
                    }
                },
                None => {},
            }
        },
        None => {},
    }
}

proof fn lemma_parse_flights_short(s: Seq<char>, count: nat)
    requires
        count > s.len(),
    ensures
        parse_flights(s, count) is None,
    decreases count,
{
    match parse_flight(s) {
        Some((f, rest)) => {
            lemma_parse_flight_shrinks(s);
            lemma_parse_flights_short(rest, (count - 1) as nat);
        },
        None => {},
    }
}

fn digit_of_exec(c: char) -> (r: Option<usize>)
    ensures
        match r {
            Some(d) => digit_of(c) == Some(d as nat) && d < 10,
            None => digit_of(c) is None,
        },
{
    if c == '0' {
        Some(0)
    } else if c == '1' {
        Some(1)
    } else if c == '2' {
        Some(2)
    } else if c == '3' {
        Some(3)
    } else if c == '4' {
        Some(4)
    } else if c == '5' {
        Some(5)
    } else if c == '6' {
        Some(6)
    } else if c == '7' {
        Some(7)
    } else if c == '8' {
        Some(8)
    } else if c == '9' {
        Some(9)
    } else {
        None
    }
}

/// Read a count at `pos`: digits up to a `:`. Reports the count and the
/// position just past the `:`.
fn decode_nat_at(s: &str, pos: usize) -> (r: Option<(usize, usize)>)
    requires
        pos <= s@.len(),
    ensures
        match r {
            Some(v) => pos <= v.1 <= s@.len() && parse_len(s@.skip(pos as int), 0) == Some(
                ((v.0 as nat), s@.skip(v.1 as int)),
            ),
            None => parse_len(s@.skip(pos as int), 0) is None,
        },
{
    let len = s.unicode_len();
    let mut acc: usize = 0;
    let mut i: usize = pos;
    while i < len
        invariant
            pos <= i <= len,
            len == s@.len(),
            parse_len(s@.skip(pos as int), 0) == parse_len(s@.skip(i as int), acc as nat),
        decreases len - i,
    {
        let c = s.get_char(i);
        proof {
            assert(s@.skip(i as int)[0] == s@[i as int]);
        }
        if c == ':' {
            proof {
                assert(s@.skip(i as int).skip(1) =~= s@.skip(i + 1));
            }
            return Some((acc, i + 1));
        }
        let d = match digit_of_exec(c) {
            Some(d) => d,
            None => { return None; },
        };
        proof {
            vstd::arithmetic::div_mod::lemma_fundamental_div_mod(usize::MAX as int, 10);
        }
        if acc > usize::MAX / 10 {
            proof {
                assert((acc as nat) * 10 + (d as nat) > usize::MAX);
            }
            return None;
        }
        let acc10 = acc * 10;
        if d > usize::MAX - acc10 {
            return None;
        }
        proof {
            assert(s@.skip(i as int).skip(1) =~= s@.skip(i + 1));
        }
        acc = acc10 + d;
        i = i + 1;
    }
    proof {
        assert(s@.skip(i as int).len() == 0);
    }
    None
}

/// Read a counted string at `pos`. Reports the string and the position just
/// past it.
fn decode_str_at(s: &str, pos: usize) -> (r: Option<(String, usize)>)
    requires
        pos <= s@.len(),
    ensures
        match r {
            Some(v) => pos <= v.1 <= s@.len() && parse_str(s@.skip(pos as int)) == Some(
                (v.0@, s@.skip(v.1 as int)),
            ),
            None => parse_str(s@.skip(pos as int)) is None,
        },
{
    let len = s.unicode_len();
    let (n, p) = match decode_nat_at(s, pos) {
        Some(v) => v,
        None => { return None; },
    };
    if n > len - p {
        return None;
    }
    let v = s.substring_char(p, p + n).to_owned();
    proof {
        assert(s@.skip(p as int).take(n as int) =~= s@.subrange(p as int, p + n));
        assert(s@.skip(p as int).skip(n as int) =~= s@.skip(p + n));
    }
    Some((v, p + n))
}

/// Read a stream tag at `pos`.
fn decode_stream_at(s: &str, pos: usize) -> (r: Option<(OutputStream, usize)>)
    requires
        pos <= s@.len(),
    ensures
        match r {
            Some(v) => pos <= v.1 <= s@.len() && parse_stream_tag(s@.skip(pos as int)) == Some(
                (v.0, s@.skip(v.1 as int)),
            ),
            None => parse_stream_tag(s@.skip(pos as int)) is None,
        },
{
    let len = s.unicode_len();
    if pos == len {
        return None;
    }
    let c = s.get_char(pos);
    proof {
        assert(s@.skip(pos as int)[0] == s@[pos as int]);
        assert(s@.skip(pos as int).skip(1) =~= s@.skip(pos + 1));
    }
    if c == 'o' {
        Some((OutputStream::Stdout, pos + 1))
    } else if c == 'e' {
        Some((OutputStream::Stderr, pos + 1))
    } else {
        None
    }
}

/// Read `count` counted strings at `pos`.
fn decode_strs_at(s: &str, pos: usize, count: usize) -> (r: Option<(Vec<String>, usize)>)
    requires
        pos <= s@.len(),
    ensures
        match r {
            Some(v) => pos <= v.1 <= s@.len() && parse_strs(s@.skip(pos as int), count as nat)
                == Some((v.0@.map_values(|x: String| x@), s@.skip(v.1 as int))),
            None => parse_strs(s@.skip(pos as int), count as nat) is None,
        },
    decreases count,
{
    if count == 0 {
        let items: Vec<String> = Vec::new();
        proof {
            assert(items@.map_values(|x: String| x@) =~= Seq::<Seq<char>>::empty());
        }
        return Some((items, pos));
    }
    let len = s.unicode_len();
    if count > len - pos {
        proof {
            lemma_parse_strs_short(s@.skip(pos as int), count as nat);
        }
        return None;
    }
    let (a, p1) = match decode_str_at(s, pos) {
        Some(v) => v,
        None => { return None; },
    };
    match decode_strs_at(s, p1, count - 1) {
        Some((more, end)) => {
            let ghost more_view = more@;
            let mut items = more;
            items.insert(0, a);
            proof {
                assert(items@.map_values(|x: String| x@) =~= seq![a@] + more_view.map_values(
                    |x: String| x@,
                ));
            }
            Some((items, end))
        },
        None => None,
    }
}

/// Read one flight at `pos`.
#[verifier::rlimit(50)]
fn decode_flight_at(s: &str, pos: usize) -> (r: Option<(Flight, usize)>)
    requires
        pos <= s@.len(),
    ensures
        match r {
            Some(v) => pos <= v.1 <= s@.len() && parse_flight(s@.skip(pos as int)) == Some(
                (v.0@, s@.skip(v.1 as int)),
            ),
            None => parse_flight(s@.skip(pos as int)) is None,
        },
{
    let (name, p1) = match decode_str_at(s, pos) {
        Some(v) => v,
        None => { return None; },
    };
    let (flight_exec, p2) = match decode_str_at(s, p1) {
        Some(v) => v,
        None => { return None; },
    };
    let (argc, p3) = match decode_nat_at(s, p2) {
        Some(v) => v,
        None => { return None; },
    };
    let (preflight_args, p4) = match decode_strs_at(s, p3, argc) {
        Some(v) => v,
        None => { return None; },
    };
    let (stream, p5) = match decode_stream_at(s, p4) {
        Some(v) => v,
        None => { return None; },
    };
    let (flag, p6) = match decode_str_at(s, p5) {
        Some(v) => v,
        None => { return None; },
    };
    let (package_name, p7) = match decode_str_at(s, p6) {
        Some(v) => v,
        None => { return None; },
    };
    let (reinstall, p8) = match decode_str_at(s, p7) {
        Some(v) => v,
        None => { return None; },
    };
    if name.as_str().is_empty() || flight_exec.as_str().is_empty() {
        return None;
    }
    let f = Flight { name, flight_exec, preflight_args, stream, flag, package_name, reinstall };
    Some((f, p8))
}

/// Read `count` flights at `pos`.
fn decode_flights_at(s: &str, pos: usize, count: usize) -> (r: Option<(Vec<Flight>, usize)>)
    requires
        pos <= s@.len(),
    ensures
        match r {
            Some(v) => pos <= v.1 <= s@.len() && parse_flights(s@.skip(pos as int), count as nat)
                == Some((v.0@.map_values(|f: Flight| f@), s@.skip(v.1 as int))),
            None => parse_flights(s@.skip(pos as int), count as nat) is None,
        },
    decreases count,
{
    if count == 0 {
        let items: Vec<Flight> = Vec::new();
        proof {
            assert(items@.map_values(|f: Flight| f@) =~= Seq::<FlightSpec>::empty());
        }
        return Some((items, pos));
    }
    let len = s.unicode_len();
    if count > len - pos {
        proof {
            lemma_parse_flights_short(s@.skip(pos as int), count as nat);
        }
        return None;
    }
    let (f, p1) = match decode_flight_at(s, pos) {
        Some(v) => v,
        None => { return None; },
    };
    match decode_flights_at(s, p1, count - 1) {
        Some((more, end)) => {
            let ghost more_view = more@;
            let mut items = more;
            items.insert(0, f);
            proof {
                assert(items@.map_values(|f: Flight| f@) =~= seq![items@[0]@] + more_view
                    .map_values(|f: Flight| f@));
            }
            Some((items, end))
        },
        None => None,
    }
}

/// The hangar a stored text holds, or `Malformed` when it holds none.
pub fn decode_hangar(s: &str) -> (r: Result<Hangar, PersistError>)
    ensures
        match r {
            Ok(h) => decode_hangar_spec(s@) == Some(h@),
            Err(e) => decode_hangar_spec(s@) is None && e == PersistError::Malformed,
        },
{
    let len = s.unicode_len();
    proof {
        assert(s@.skip(0) =~= s@);
    }
    let (name, p1) = match decode_str_at(s, 0) {
        Some(v) => v,
        None => { return Err(PersistError::Malformed); },
    };
    let (description, p2) = match decode_str_at(s, p1) {
        Some(v) => v,
        None => { return Err(PersistError::Malformed); },
    };
    let (count, p3) = match decode_nat_at(s, p2) {
        Some(v) => v,
        None => { return Err(PersistError::Malformed); },
    };
    let (flights, p4) = match decode_flights_at(s, p3, count) {
        Some(v) => v,
        None => { return Err(PersistError::Malformed); },
    };
    if name.as_str().is_empty() || p4 != len {
        return Err(PersistError::Malformed);
    }
    let h = Hangar { name, description, flights };
    Ok(h)
}

} // verus!
