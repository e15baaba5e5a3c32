//! Laws of the text forms of events: times of day, and names of processes.

use vstd::prelude::*;

use crate::etw::{detail_text, filetime_text, process_text, three_digits, two_digits};
use crate::text::number_text;

verus! {

/// A time is told as `HH:MM:SS.mmm`, and what it tells is how many milliseconds of the day in UTC
/// have passed, rounded down.
pub proof fn clock_tells_the_time_of_day(filetime: int)
    ensures
        filetime_text(filetime).len() == 12,
        filetime_text(filetime)[2] == ':',
        filetime_text(filetime)[5] == ':',
        filetime_text(filetime)[8] == '.',
        forall|i: int|
            0 <= i < 12 && i != 2 && i != 5 && i != 8 ==> '0' <= #[trigger] filetime_text(
                filetime,
            )[i] <= '9',
        ({
            let t = filetime_text(filetime);
            let hours = (t[0] as int - 48) * 10 + (t[1] as int - 48);
            let minutes = (t[3] as int - 48) * 10 + (t[4] as int - 48);
            let seconds = (t[6] as int - 48) * 10 + (t[7] as int - 48);
            let millis = (t[9] as int - 48) * 100 + (t[10] as int - 48) * 10 + (t[11] as int - 48);
            &&& hours < 24
            &&& minutes < 60
            &&& seconds < 60
            &&& ((hours * 60 + minutes) * 60 + seconds) * 1000 + millis == filetime / 10_000
                % 86_400_000
        }),
{
    let secs = filetime / 10_000_000 % 86_400;
    let millis = filetime / 10_000 % 1000;
    let h = two_digits(secs / 3600);
    let m = two_digits(secs / 60 % 60);
    let s = two_digits(secs % 60);
    let f = three_digits(millis);
    let t = filetime_text(filetime);
    assert(t =~= seq![h[0], h[1], ':', m[0], m[1], ':', s[0], s[1], '.', f[0], f[1], f[2]]);
    two_digits_read_back(secs / 3600);
    two_digits_read_back(secs / 60 % 60);
    two_digits_read_back(secs % 60);
    three_digits_read_back(millis);
    assert((secs / 3600 * 60 + secs / 60 % 60) * 60 + secs % 60 == secs);
    milliseconds_of_the_day(filetime);
}

/// Seconds and milliseconds of a day.
proof fn milliseconds_of_the_day(filetime: int)
    ensures
        filetime / 10_000_000 % 86_400 * 1000 + filetime / 10_000 % 1000 == filetime / 10_000
            % 86_400_000,
{
}

proof fn two_digits_read_back(n: int)
    requires
        0 <= n < 100,
    ensures
        two_digits(n).len() == 2,
        '0' <= two_digits(n)[0] <= '9',
        '0' <= two_digits(n)[1] <= '9',
        (two_digits(n)[0] as int - 48) * 10 + (two_digits(n)[1] as int - 48) == n,
{
}

proof fn three_digits_read_back(n: int)
    requires
        0 <= n < 1000,
    ensures
        three_digits(n).len() == 3,
        '0' <= three_digits(n)[0] <= '9',
        '0' <= three_digits(n)[1] <= '9',
        '0' <= three_digits(n)[2] <= '9',
        (three_digits(n)[0] as int - 48) * 100 + (three_digits(n)[1] as int - 48) * 10 + (
        three_digits(n)[2] as int - 48) == n,
{
}

/// A process is called by its name, and by its number in decimal where the name is not known.
pub proof fn process_has_its_name(name: Seq<char>, pid: u32)
    ensures
        process_text(Some(name), pid as int) == name,
        process_text(None, pid as int) == "pid:"@ + number_text(pid as nat, 10),
{
}

/// A size is told as `size=` and the number, an offset only behind a size, and as ` offset=` and
/// the number.
pub proof fn detail_tells_size_and_offset(size: u32, offset: u64)
    ensures
        detail_text(Some(size), Some(offset)) == "size="@ + number_text(size as nat, 10)
            + " offset="@ + number_text(offset as nat, 10),
        detail_text(Some(size), None) == "size="@ + number_text(size as nat, 10),
        detail_text(None, Some(offset)).len() == 0,
        detail_text(None, None).len() == 0,
{
}

} // verus!
