use vstd::prelude::*;
use vstd::std_specs::cmp::PartialEqSpec;

verus! {

#[verifier::external_type_specification]
#[verifier::external_body]
pub struct ExSystemTime(std::time::SystemTime);

/// Wraps `std::time::SystemTime::now`: the current reading of the system
/// clock. Nothing is promised of it.
#[verifier::external_body]
fn system_time_now() -> std::time::SystemTime {
    std::time::SystemTime::now()
}

/// Wraps `SystemTime::duration_since(UNIX_EPOCH)`, converting the duration to
/// whole seconds: `None` where the time lies before the epoch. Nothing is
/// promised of the number, which depends on the clock.
#[verifier::external_body]
fn seconds_since_epoch(time: &std::time::SystemTime) -> Option<u64> {
    match time.duration_since(std::time::UNIX_EPOCH) {
        Ok(duration) => Some(duration.as_secs()),
        Err(_) => None,
    }
}

/// The current time in whole seconds since the Unix epoch; a clock that reads
/// earlier than the epoch gives 0.
pub fn unixtime() -> u64 {
    let now = system_time_now();
    match seconds_since_epoch(&now) {
        Some(seconds) => seconds,
        None => 0,
    }
}

/// Gets the bit at position `n`.
/// Bits are numbered from 0 (least significant) to 7 (most significant).
pub fn get_bit_at(input: u8, n: u8) -> (bit: bool)
    ensures
        bit == (n < 8 && (input >> n) & 1 == 1),
{
    if n < 8 {
        let mask: u8 = 1u8 << n;
        let r = input & mask != 0;
        assert(n < 8 ==> ((input & (1u8 << n) != 0) == ((input >> n) & 1 == 1))) by (bit_vector);
        r
    } else {
        false
    }
}

/// Applies `f` to `initial` and then again to its own result until the result
/// no longer changes, as the type's own equality (`eq_spec`) judges, and
/// returns that fixed point.
///
/// Applying `f` again and again from `initial` must reach a fixed point:
/// where it never does, the loop would not end.
pub fn fixedpoint<F, T>(f: F, initial: T) -> (result: T)
    where
        F: Fn(&T) -> T,
        T: PartialEq,
    requires
        T::obeys_eq_spec(),
        forall|x: &T| #[trigger] f.requires((x,)),
        forall|x: &T, y1: T, y2: T|
            #[trigger] f.ensures((x,), y1) && #[trigger] f.ensures((x,), y2) ==> y1 == y2,
        exists|chain: Seq<T>| #[trigger] first_fixed_point(f, initial, chain),
    ensures
        forall|y: T| #[trigger] f.ensures((&result,), y) ==> result.eq_spec(&y),
        exists|first: T| #[trigger] f.ensures((&initial,), first),
        exists|chain: Seq<T>| #[trigger] first_fixed_point(f, initial, chain) && result == chain.last(),
{
    let ghost target = choose|chain: Seq<T>| #[trigger] first_fixed_point(f, initial, chain);
    let mut result = f(&initial);
    let ghost first = result;
    let ghost mut i: int = 0;
    loop
        invariant
            T::obeys_eq_spec(),
            forall|x: &T| #[trigger] f.requires((x,)),
            forall|x: &T, y1: T, y2: T|
                #[trigger] f.ensures((x,), y1) && #[trigger] f.ensures((x,), y2) ==> y1 == y2,
            first_fixed_point(f, initial, target),
            0 <= i < target.len(),
            result == target[i],
            f.ensures((&initial,), first),
            first == target[0],
        decreases target.len() - i,
    {
        let next = f(&result);
        if result == next {
            assert forall|y: T| #[trigger] f.ensures((&result,), y) implies result.eq_spec(&y) by {}
            assert(first_fixed_point(f, initial, target.take(i + 1)));
            assert(target.take(i + 1).last() == result);
            return result;
        }
        proof {
            if i == target.len() - 1 {
                assert(f.ensures((&target.last(),), next));
            }
            assert(f.ensures((&target[i],), target[i + 1]));
        }
        result = f(&result);
        proof {
            i = i + 1;
        }
    }
}

/// `chain` is what applying `f` again and again from `initial` gives, up to
/// its first fixed point: `f` of `initial` first, each next element `f` of
/// the one before and, by the type's own equality, different from it, and
/// the last one equal to what `f` makes of it.
pub open spec fn first_fixed_point<F: Fn(&T) -> T, T: PartialEq>(f: F, initial: T, chain: Seq<T>) -> bool {
    &&& chain.len() >= 1
    &&& f.ensures((&initial,), chain[0])
    &&& forall|i: int| 0 <= i < chain.len() - 1 ==> #[trigger] f.ensures((&chain[i],), chain[i + 1])
        && !chain[i].eq_spec(&chain[i + 1])
    &&& forall|y: T| #[trigger] f.ensures((&chain.last(),), y) ==> chain.last().eq_spec(&y)
}

} // verus!

verus! {

/// How a listing writes times: date, then hours, minutes and seconds.
pub const LISTING_TIME: &'static str = "%Y-%m-%d %H:%M:%S";

/// How a report on a file writes times: as a listing does, with the
/// fraction of the second.
pub const STAT_TIME: &'static str = "%Y-%m-%d %H:%M:%S.%f";

/// What chrono writes for the UTC time `secs` seconds after the Unix epoch
/// in the strftime `format`, where it can represent that time.
pub uninterp spec fn utc_time_text(secs: i64, format: Seq<char>) -> Option<Seq<char>>;

/// Wraps chrono's `DateTime::<Utc>::from_timestamp(secs, 0)` and
/// `format(format).to_string()`: the time written in `format`, or nothing
/// where chrono cannot represent it. It is given only the two formats of the
/// programs, which chrono accepts.
#[verifier::external_body]
pub(crate) fn utc_time(secs: i64, format: &str) -> (text: Option<String>)
    requires
        format@ == LISTING_TIME@ || format@ == STAT_TIME@,
    ensures
        match text {
            Some(t) => utc_time_text(secs, format@) == Some(t@),
            None => utc_time_text(secs, format@) is None,
        },
{
    match chrono::DateTime::<chrono::Utc>::from_timestamp(secs, 0) {
        Some(time) => Some(time.format(format).to_string()),
        None => None,
    }
}

} // verus!
