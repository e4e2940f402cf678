//! The key that byte counts are aggregated under: an address and an hour of a
//! day.

use vstd::prelude::*;
use crate::date::{date_of_text, read_date, Date, Day};
use crate::text::{
    chars_of, first_sep, lemma_first_sep, lemma_first_sep_bounds, parse_number, read_number,
};

verus! {

/// Mathematical value of an aggregation key.
pub struct KeyModel {
    pub address: int,
    pub date: Day,
    pub hour: int,
}

impl KeyModel {
    /// An IPv4 address, a valid day and an hour of the day.
    pub open spec fn valid(self) -> bool {
        &&& 0 <= self.address <= u32::MAX
        &&& self.date.valid()
        &&& 0 <= self.hour <= 23
    }

    /// The key as one number: address, year, month, day and hour, each in a
    /// field of its own.
    pub open spec fn packed(self) -> int {
        (((self.address * 0x1_0000 + self.date.year) * 0x100 + self.date.month) * 0x100
            + self.date.day) * 0x100 + self.hour
    }
}

/// Valid keys that pack to the same number are the same key.
pub proof fn lemma_packed_injective(a: KeyModel, b: KeyModel)
    requires
        a.valid(),
        b.valid(),
        a.packed() == b.packed(),
    ensures
        a == b,
{
    let a3 = (a.address * 0x1_0000 + a.date.year) * 0x100 + a.date.month;
    let b3 = (b.address * 0x1_0000 + b.date.year) * 0x100 + b.date.month;
    let a4 = a3 * 0x100 + a.date.day;
    let b4 = b3 * 0x100 + b.date.day;
    assert(a4 * 0x100 + a.hour == b4 * 0x100 + b.hour);
    assert(a4 == b4 && a.hour == b.hour);
    assert(a3 == b3 && a.date.day == b.date.day);
    let a2 = a.address * 0x1_0000 + a.date.year;
    let b2 = b.address * 0x1_0000 + b.date.year;
    assert(a2 == b2 && a.date.month == b.date.month);
    assert(a.address == b.address && a.date.year == b.date.year);
}

/// An address in one hour of one day.
#[derive(Clone, Copy, Debug, PartialEq, Eq, Structural)]
pub struct AggregationKey {
    address: u32,
    date: Date,
    hour: u8,
}

impl View for AggregationKey {
    type V = KeyModel;

    closed spec fn view(&self) -> KeyModel {
        KeyModel { address: self.address as int, date: self.date@, hour: self.hour as int }
    }
}

impl AggregationKey {
    /// Every key is valid.
    #[verifier::type_invariant]
    pub open spec fn inv(self) -> bool {
        self@.valid()
    }

    /// The key of `address` in the hour `hour` of `date`, where `hour` is an
    /// hour of the day.
    pub fn new(address: u32, date: Date, hour: u8) -> (r: Option<AggregationKey>)
        ensures
            match r {
                Some(key) => key@ == (KeyModel {
                    address: address as int,
                    date: date@,
                    hour: hour as int,
                }) && key@.valid(),
                None => hour > 23,
            },
    {
        proof {
            use_type_invariant(&date);
        }
        if hour > 23 {
            None
        } else {
            Some(AggregationKey { address, date, hour })
        }
    }

    /// The address.
    pub fn address(&self) -> (r: u32)
        ensures
            r == self@.address,
            self@.valid(),
    {
        proof {
            use_type_invariant(self);
        }
        self.address
    }

    /// The day.
    pub fn date(&self) -> (r: Date)
        ensures
            r@ == self@.date,
            self@.valid(),
    {
        proof {
            use_type_invariant(self);
        }
        self.date
    }

    /// The hour of the day, from 0 to 23.
    pub fn hour(&self) -> (r: u8)
        ensures
            r == self@.hour,
            self@.valid(),
    {
        proof {
            use_type_invariant(self);
        }
        self.hour
    }

    /// The key as one number.
    pub fn packed(&self) -> (r: u128)
        ensures
            r == self@.packed(),
            self@.valid(),
    {
        proof {
            use_type_invariant(self);
        }
        let year: u128 = self.date.year() as u128;
        let month: u128 = self.date.month() as u128;
        let day: u128 = self.date.day() as u128;
        (((self.address as u128 * 0x1_0000 + year) * 0x100 + month) * 0x100 + day) * 0x100
            + self.hour as u128
    }
}

/// The day and the hour that a timestamp names: the text before the first
/// `T` read as a date, and the text between that `T` and the next `T` or `:`
/// read as a number of at most 23.
pub open spec fn moment_of(stamp: Seq<char>) -> Option<(Day, int)> {
    let split = first_sep(stamp, 'T');
    if 0 <= split < stamp.len() {
        let rest = stamp.skip(split + 1);
        let time = rest.take(first_sep(rest, 'T'));
        let hour = time.take(first_sep(time, ':'));
        match (date_of_text(stamp.take(split)), parse_number(hour)) {
            (Some(day), Some(h)) if h <= 23 => Some((day, h as int)),
            _ => None,
        }
    } else {
        None
    }
}

/// The day of a moment is a valid day.
pub proof fn lemma_moment_valid(stamp: Seq<char>)
    ensures
        moment_of(stamp) matches Some((day, hour)) ==> day.valid() && 0 <= hour <= 23,
{
}

/// Index of the first `sep` in `s`, or the length of `s`.
fn find(s: &Vec<char>, sep: char) -> (i: usize)
    ensures
        i == first_sep(s@, sep),
        i <= s.len(),
{
    let mut i: usize = 0;
    while i < s.len() && s[i] != sep
        invariant
            i <= s.len(),
            forall|j: int| 0 <= j < i ==> s@[j] != sep,
        decreases s.len() - i,
    {
        i += 1;
    }
    proof {
        lemma_first_sep(s@, sep, i as int);
    }
    i
}

/// Reads the day and the hour out of a timestamp.
pub fn read_moment(stamp: &str) -> (r: Option<(Date, u8)>)
    ensures
        match r {
            Some((date, hour)) => moment_of(stamp@) == Some((date@, hour as int)),
            None => moment_of(stamp@) is None,
        },
{
    let chars = chars_of(stamp);
    let split = find(&chars, 'T');
    if split >= chars.len() {
        return None;
    }
    let mut stop = split + 1;
    let mut digits: Vec<char> = Vec::new();
    while stop < chars.len() && chars[stop] != 'T' && chars[stop] != ':'
        invariant
            split < stop <= chars.len(),
            digits@ == chars@.subrange(split + 1, stop as int),
            forall|j: int| split < j < stop ==> chars@[j] != 'T' && chars@[j] != ':',
        decreases chars.len() - stop,
    {
        digits.push(chars[stop]);
        stop += 1;
    }
    proof {
        let rest = chars@.skip(split + 1);
        let time = rest.take(first_sep(rest, 'T'));
        let hour = time.take(first_sep(time, ':'));
        let n = stop - split - 1;
        assert forall|j: int| 0 <= j < n implies rest[j] != 'T' && rest[j] != ':' by {
            assert(rest[j] == chars@[split + 1 + j]);
        }
        if stop < chars.len() && chars@[stop as int] == 'T' {
            lemma_first_sep(rest, 'T', n);
            assert forall|j: int| 0 <= j < n implies time[j] != ':' by {
                assert(time[j] == rest[j]);
            }
            lemma_first_sep(time, ':', n);
        } else {
            let t = first_sep(rest, 'T');
            lemma_first_sep_bounds(rest, 'T');
            assert(t >= n) by {
                if t < n {
                    assert(rest[t] != 'T');
                }
            }
            assert forall|j: int| 0 <= j < n implies time[j] != ':' by {
                assert(time[j] == rest[j]);
            }
            if stop < chars.len() {
                assert(rest[n] == ':');
                assert(time[n] == ':');
            }
            lemma_first_sep(time, ':', n);
        }
        assert(hour == digits@);
    }
    let hour = read_number(&digits, 23);
    let date = read_date(stamp.substring_char(0, split));
    match (date, hour) {
        (Some(date), Some(hour)) => Some((date, hour as u8)),
        _ => None,
    }
}

} // verus!
