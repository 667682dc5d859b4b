//! What is kept between runs, and when.
use vstd::prelude::*;
use vstd::utf8::encode_utf8;
use crate::clock::{
    bytes_le, day_number, days_before_month, is_date, lemma_year_len, local_day, month_len, stamp,
    stamp_of, stamps_day, two_digits, year_text, LocalTime,
};
use crate::crypto::base64_text;
use crate::store::{
    credentials_kept, fresh_data, kept_password, log_line_of, logged, stays, unexpired,
    usable_password, without_credentials, DataView,
};
use crate::text::{dec, zero_padded};

verus! {

// ---------------------------------------------------------------------------
// The account
// ---------------------------------------------------------------------------

/// An account that is to be kept is kept as it is given: with the sealed password, without
/// one where none is given, and with the one that is kept where it could not be sealed.
/// The portal and the log stay as they were.
pub proof fn law_account_is_kept_as_given(
    d: DataView,
    username: Seq<char>,
    password: Seq<char>,
    sealed: Seq<u8>,
    ua: Seq<char>,
    adapter: Seq<char>,
)
    requires
        password.len() > 0,
    ensures
        credentials_kept(d, username, Some(password), Some(sealed), true, ua, adapter) == (
        DataView {
            username,
            password_dpapi: base64_text(sealed),
            save_password: true,
            ua,
            adapter,
            portal_url: d.portal_url,
            log_lines: d.log_lines,
        }),
        credentials_kept(d, username, Some(password), None, true, ua, adapter) == (DataView {
            username,
            password_dpapi: d.password_dpapi,
            save_password: true,
            ua,
            adapter,
            portal_url: d.portal_url,
            log_lines: d.log_lines,
        }),
        credentials_kept(d, username, None, Some(sealed), true, ua, adapter) == (DataView {
            username,
            password_dpapi: Seq::empty(),
            save_password: true,
            ua,
            adapter,
            portal_url: d.portal_url,
            log_lines: d.log_lines,
        }),
        credentials_kept(d, username, Some(Seq::empty()), Some(sealed), true, ua, adapter)
            == credentials_kept(d, username, None, Some(sealed), true, ua, adapter),
{
}

/// An account that is not to be kept is forgotten, and so is one on request; the kind of
/// device, the adapter, the portal and the log stay as they were.
pub proof fn law_account_is_forgotten(
    d: DataView,
    username: Seq<char>,
    password: Option<Seq<char>>,
    sealed: Option<Seq<u8>>,
    ua: Seq<char>,
    adapter: Seq<char>,
)
    ensures
        without_credentials(d) == (DataView {
            username: Seq::empty(),
            password_dpapi: Seq::empty(),
            save_password: false,
            ua: d.ua,
            adapter: d.adapter,
            portal_url: d.portal_url,
            log_lines: d.log_lines,
        }),
        credentials_kept(d, username, password, sealed, false, ua, adapter) == without_credentials(
            d,
        ),
{
}

/// Nothing is kept at first, and the device is a computer.
pub proof fn law_nothing_is_kept_at_first()
    ensures
        fresh_data().username.len() == 0,
        fresh_data().password_dpapi.len() == 0,
        !fresh_data().save_password,
        fresh_data().ua == "pc"@,
        fresh_data().adapter.len() == 0,
        fresh_data().portal_url.len() == 0,
        fresh_data().log_lines.len() == 0,
{
}

/// The kept password signs in only where it was to be kept.
pub proof fn law_password_is_used_where_kept(d: DataView, opened: Option<Seq<u8>>)
    ensures
        d.save_password ==> usable_password(d, opened) == kept_password(d, opened),
        !d.save_password ==> usable_password(d, opened) is None,
        d.password_dpapi.len() == 0 ==> kept_password(d, opened) is None,
        opened is None ==> kept_password(d, opened) is None,
{
}

// ---------------------------------------------------------------------------
// The log
// ---------------------------------------------------------------------------

/// A line of the log is the message behind the moment in brackets.
pub proof fn law_line_tells_when_and_what(now: LocalTime, msg: Seq<char>)
    ensures
        log_line_of(now, msg) == "["@ + stamp_of(now) + "] "@ + msg,
{
}

/// A message is appended behind the lines that are there, letter for letter; where there is
/// no room left, the oldest go. There is room for two thousand.
pub proof fn law_message_is_appended(
    lines: Seq<Seq<char>>,
    now: LocalTime,
    msg: Seq<char>,
    deadline: Seq<char>,
)
    requires
        forall|i: int| 0 <= i < lines.len() ==> stays(#[trigger] lines[i], deadline),
        stays(log_line_of(now, msg), deadline),
    ensures
        lines.len() < 2000 ==> logged(lines, now, msg, deadline) == lines.push(
            log_line_of(now, msg),
        ),
        lines.len() >= 2000 ==> logged(lines, now, msg, deadline) == lines.skip(
            lines.len() - 1999,
        ).push(log_line_of(now, msg)),
{
    let all = lines.push(log_line_of(now, msg));
    if lines.len() < 2000 {
        lemma_all_stay(all, deadline);
    } else {
        let last = lines.skip(lines.len() - 1999).push(log_line_of(now, msg));
        assert(all.skip(all.len() - 2000) =~= last);
        assert forall|i: int| 0 <= i < last.len() implies stays(#[trigger] last[i], deadline) by {
            if i < 1999 {
                assert(last[i] == lines[lines.len() - 1999 + i]);
            }
        }
        lemma_all_stay(last, deadline);
    }
}

/// Where no line has expired, all stay.
proof fn lemma_all_stay(lines: Seq<Seq<char>>, deadline: Seq<char>)
    requires
        forall|i: int| 0 <= i < lines.len() ==> stays(#[trigger] lines[i], deadline),
    ensures
        unexpired(lines, deadline) == lines,
    decreases lines.len(),
{
    if lines.len() > 0 {
        assert forall|i: int| 0 <= i < lines.len() - 1 implies stays(
            #[trigger] lines.drop_last()[i],
            deadline,
        ) by {
            assert(lines.drop_last()[i] == lines[i]);
        }
        lemma_all_stay(lines.drop_last(), deadline);
        assert(lines.last() == lines[lines.len() - 1]);
        assert(lines.drop_last().push(lines.last()) =~= lines);
    }
}

/// A line that is too short for a moment never expires.
pub proof fn law_short_line_stays(line: Seq<char>, deadline: Seq<char>)
    requires
        encode_utf8(line).len() < 20,
    ensures
        stays(line, deadline),
{
}

// ---------------------------------------------------------------------------
// The calendar
// ---------------------------------------------------------------------------

/// Days are counted one by one, from the first of January 1970 on: within a month, from one
/// month to the next, and from one year to the next.
pub proof fn law_days_are_counted(y: int, m: int, d: int)
    requires
        is_date(y, m, d),
    ensures
        day_number(1970, 1, 1) == 0,
        is_date(y, m, d + 1) ==> day_number(y, m, d + 1) == day_number(y, m, d) + 1,
        !is_date(y, m, d + 1) && m < 12 ==> is_date(y, m + 1, 1) && day_number(y, m + 1, 1)
            == day_number(y, m, d) + 1,
        m == 12 && d == 31 ==> day_number(y + 1, 1, 1) == day_number(y, m, d) + 1,
{
    reveal_with_fuel(days_before_month, 13);
    lemma_year_len(y);
}

/// The months have the days of the calendar.
pub proof fn law_months_have_their_days(y: int)
    ensures
        month_len(y, 1) == 31 && month_len(y, 3) == 31 && month_len(y, 5) == 31,
        month_len(y, 7) == 31 && month_len(y, 8) == 31 && month_len(y, 10) == 31,
        month_len(y, 12) == 31,
        month_len(y, 4) == 30 && month_len(y, 6) == 30 && month_len(y, 9) == 30,
        month_len(y, 11) == 30,
        y % 400 == 0 ==> month_len(y, 2) == 29,
        y % 100 == 0 && y % 400 != 0 ==> month_len(y, 2) == 28,
        y % 4 == 0 && y % 100 != 0 ==> month_len(y, 2) == 29,
        y % 4 != 0 ==> month_len(y, 2) == 28,
{
    if y % 400 == 0 {
        assert(y % 4 == 0);
    }
}

/// A local day begins at midnight and has the seconds of a day: `n` is the day of a second
/// exactly where the second is none of an earlier or a later day.
pub proof fn law_day_has_its_seconds(now: int, offset: int, n: int)
    ensures
        local_day(now, offset) == n <==> n * 86400 <= now + offset < (n + 1) * 86400,
{
}

/// A stamp is written with four digits for the year and two for each of the others.
pub proof fn law_stamp_is_written(t: LocalTime)
    ensures
        stamp_of(t) == year_text(t.year as int) + "-"@ + two_digits(t.month as int) + "-"@
            + two_digits(t.day as int) + " "@ + two_digits(t.hour as int) + ":"@ + two_digits(
            t.minute as int,
        ) + ":"@ + two_digits(t.second as int),
{
}

/// A number is written with as many zeros in front as it lacks digits.
pub proof fn law_zeros_stand_in_front(n: nat, zeros: Seq<char>)
    requires
        forall|i: int| 0 <= i < zeros.len() ==> #[trigger] zeros[i] == '0',
    ensures
        zeros.len() + dec(n).len() == 2 ==> two_digits(n as int) == zeros + dec(n),
        zeros.len() + dec(n).len() == 4 ==> year_text(n as int) == zeros + dec(n),
        dec(n).len() >= 2 ==> two_digits(n as int) == dec(n),
        dec(n).len() >= 4 ==> year_text(n as int) == dec(n),
{
    if zeros.len() + dec(n).len() == 2 {
        assert(two_digits(n as int) =~= zeros + dec(n));
    }
    if zeros.len() + dec(n).len() == 4 {
        assert(year_text(n as int) =~= zeros + dec(n));
    }
    if dec(n).len() >= 2 {
        assert(two_digits(n as int) =~= dec(n));
    }
    if dec(n).len() >= 4 {
        assert(year_text(n as int) =~= dec(n));
    }
}

/// The stamp of a day is that of its midnight.
pub proof fn law_day_is_stamped_at_midnight(y: int, m: int, d: int)
    requires
        is_date(y, m, d),
    ensures
        stamps_day(
            year_text(y) + "-"@ + two_digits(m) + "-"@ + two_digits(d) + " 00:00:00"@,
            day_number(y, m, d),
        ),
{
    reveal_strlit(" 00:00:00");
    reveal_strlit(" ");
    reveal_strlit(":");
    law_zeros_stand_in_front(0, seq!['0']);
    assert(dec(0) =~= seq!['0']);
    let zeros = two_digits(0);
    assert(zeros =~= seq!['0', '0']);
    let head = year_text(y) + "-"@ + two_digits(m) + "-"@ + two_digits(d);
    assert(stamp(y, m, d, 0, 0, 0) =~= head + (" "@ + zeros + ":"@ + zeros + ":"@ + zeros));
    assert(" "@ + zeros + ":"@ + zeros + ":"@ + zeros =~= " 00:00:00"@);
}

/// Of two texts the one whose first difference is smaller comes first.
pub proof fn law_first_difference_decides(
    same: Seq<u8>,
    x: u8,
    after_x: Seq<u8>,
    y: u8,
    after_y: Seq<u8>,
)
    requires
        x < y,
    ensures
        bytes_le(same + seq![x] + after_x, same + seq![y] + after_y),
        !bytes_le(same + seq![y] + after_y, same + seq![x] + after_x),
        bytes_le(same, same + after_x),
    decreases same.len(),
{
    let a = same + seq![x] + after_x;
    let b = same + seq![y] + after_y;
    if same.len() > 0 {
        let rest = same.skip(1);
        law_first_difference_decides(rest, x, after_x, y, after_y);
        assert(a.skip(1) =~= rest + seq![x] + after_x);
        assert(b.skip(1) =~= rest + seq![y] + after_y);
        assert(a[0] == same[0] && b[0] == same[0]);
        assert((same + after_x).skip(1) =~= rest + after_x);
        assert((same + after_x)[0] == same[0]);
    } else {
        assert(a[0] == x && b[0] == y);
    }
}

/// A year before the year zero is written with a sign and at least three digits.
pub proof fn law_early_year_has_a_sign(n: nat, zeros: Seq<char>)
    requires
        n > 0,
        forall|i: int| 0 <= i < zeros.len() ==> #[trigger] zeros[i] == '0',
    ensures
        zeros.len() + dec(n).len() == 3 ==> year_text(-(n as int)) == "-"@ + (zeros + dec(n)),
        dec(n).len() >= 3 ==> year_text(-(n as int)) == "-"@ + dec(n),
{
    if zeros.len() + dec(n).len() == 3 {
        assert(zero_padded(dec(n), 3) =~= zeros + dec(n));
    }
    if dec(n).len() >= 3 {
        assert(zero_padded(dec(n), 3) =~= dec(n));
    }
}

} // verus!
