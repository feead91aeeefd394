//! Laws of the messages: where one ends, what can be read back, and that the server does not answer
//! itself.
use vstd::prelude::*;
use crate::ssdp::{
    broadcast_lines, date_text, framed, is_date, is_search, is_year, line_end, month_name,
    reply_lines, targets, two_digits, weekday_name,
};
use crate::text::{is_digit, occurs_at};
use crate::types::{hex_text, uuid_text};

verus! {

/// The text holds neither character of a line end.
pub open spec fn unbroken(s: Seq<char>) -> bool {
    forall|i: int| 0 <= i < s.len() ==> #[trigger] s[i] != '\r' && s[i] != '\n'
}

/// Lines that a message can hold: none is empty and none is broken.
pub open spec fn proper(lines: Seq<Seq<char>>) -> bool {
    forall|i: int| 0 <= i < lines.len() ==> (#[trigger] lines[i]).len() > 0 && unbroken(lines[i])
}

/// What follows the last line: two line ends.
pub open spec fn message_end() -> Seq<char> {
    line_end() + line_end()
}

/// The only empty line of a message is its end.
pub proof fn law_message_ends_once(lines: Seq<Seq<char>>, i: int)
    requires
        lines.len() > 0,
        proper(lines),
    ensures
        occurs_at(framed(lines), message_end(), i) <==> i == framed(lines).len() - 4,
    decreases lines.len(),
{
    let all = framed(lines);
    let end = message_end();
    let rest = lines.skip(1);
    let tail = framed(rest);
    let line = lines[0];
    let n: int = line.len() as int;
    assert(all == line + line_end() + tail);
    assert(forall|k: int| 0 <= k < n ==> all[k] == #[trigger] line[k]);
    assert(all[n] == '\r' && all[n + 1] == '\n');
    assert(forall|k: int| 0 <= k < tail.len() ==> all[n + 2 + k] == #[trigger] tail[k]);
    assert forall|j: int| 0 <= j < rest.len() implies (#[trigger] rest[j]).len() > 0 && unbroken(
        rest[j],
    ) by {
        assert(rest[j] == lines[j + 1]);
    }
    if rest.len() == 0 {
        assert(all.len() == n + 4);
        assert(tail[0] == '\r' && tail[1] == '\n');
        assert(all.subrange(n, n + 4) =~= end);
    } else {
        law_message_ends_once(rest, i - n - 2);
        assert(tail == rest[0] + line_end() + framed(rest.skip(1)));
        assert(tail[0] == rest[0][0]);
        assert(framed(rest.skip(1)).len() >= 2);
        if n + 2 <= i <= all.len() - 4 {
            assert(all.subrange(i, i + 4) =~= tail.subrange(i - n - 2, i - n + 2));
        }
    }
    if occurs_at(all, end, i) {
        let part = all.subrange(i, i + 4);
        assert(part[0] == '\r' && part[2] == '\r');
        assert(all[i] == '\r' && all[i + 2] == '\r');
        if i < n {
            assert(line[i] == '\r');
        }
    }
}

/// Two messages with the same text have the same lines: what was put in can be read back.
pub proof fn law_lines_read_back(a: Seq<Seq<char>>, b: Seq<Seq<char>>)
    requires
        proper(a),
        proper(b),
        framed(a) == framed(b),
    ensures
        a == b,
    decreases a.len(),
{
    let all = framed(a);
    if a.len() == 0 || b.len() == 0 {
        if a.len() > 0 {
            assert(all == a[0] + line_end() + framed(a.skip(1)));
            assert(all[0] == a[0][0]);
        }
        if b.len() > 0 {
            assert(all == b[0] + line_end() + framed(b.skip(1)));
            assert(all[0] == b[0][0]);
        }
        assert(a =~= b);
    } else {
        let (x, y) = (a[0], b[0]);
        let (n, m): (int, int) = (x.len() as int, y.len() as int);
        assert(all == x + line_end() + framed(a.skip(1)));
        assert(all == y + line_end() + framed(b.skip(1)));
        assert(all[n] == '\r' && all[m] == '\r');
        if n < m {
            assert(all[n] == y[n]);
        }
        if m < n {
            assert(all[m] == x[m]);
        }
        assert(x =~= y) by {
            assert forall|k: int| 0 <= k < n implies x[k] == y[k] by {
                assert(all[k] == x[k]);
                assert(all[k] == y[k]);
            }
        }
        assert(framed(a.skip(1)) =~= all.skip(n + 2));
        assert(framed(b.skip(1)) =~= all.skip(n + 2));
        assert forall|j: int| 0 <= j < a.skip(1).len() implies (#[trigger] a.skip(1)[j]).len() > 0
            && unbroken(a.skip(1)[j]) by {
            assert(a.skip(1)[j] == a[j + 1]);
        }
        assert forall|j: int| 0 <= j < b.skip(1).len() implies (#[trigger] b.skip(1)[j]).len() > 0
            && unbroken(b.skip(1)[j]) by {
            assert(b.skip(1)[j] == b[j + 1]);
        }
        law_lines_read_back(a.skip(1), b.skip(1));
        assert forall|j: int| 0 <= j < a.len() implies a[j] == b[j] by {
            if j > 0 {
                assert(a[j] == a.skip(1)[j - 1]);
                assert(b[j] == b.skip(1)[j - 1]);
            }
        }
        assert(a =~= b);
    }
}

/// The lines of a reply are proper where what is put in holds no line end.
pub proof fn law_reply_proper(ip: Seq<char>, uuid: Seq<char>, st: Seq<char>, date: Seq<char>)
    requires
        unbroken(ip),
        unbroken(uuid),
        unbroken(st),
        unbroken(date),
    ensures
        proper(reply_lines(ip, uuid, st, date)),
{
    reveal_strlit("HTTP/1.1 200 OK");
    reveal_strlit("CACHE-CONTROL: max-age=1800");
    reveal_strlit("DATE: ");
    reveal_strlit("EXT:");
    reveal_strlit("LOCATION: http://");
    reveal_strlit(":3030/root.xml");
    reveal_strlit("SERVER: Linux/5.8, UPnP/1.0, agni/1.0");
    reveal_strlit("ST: ");
    reveal_strlit("USN: ");
    reveal_strlit("::");
    let lines = reply_lines(ip, uuid, st, date);
    assert(unbroken(lines[0]));
    assert(unbroken(lines[1]));
    assert(unbroken(lines[2]));
    assert(unbroken(lines[3]));
    assert(unbroken(lines[4]));
    assert(unbroken(lines[5]));
    assert(unbroken(lines[6]));
    assert(unbroken(lines[7]));
}

/// The lines of a message to everyone are proper where what is put in holds no line end.
pub proof fn law_broadcast_proper(ip: Seq<char>, uuid: Seq<char>, nt: Seq<char>)
    requires
        unbroken(ip),
        unbroken(uuid),
        unbroken(nt),
    ensures
        proper(broadcast_lines(ip, uuid, nt)),
{
    reveal_strlit("NOTIFY * HTTP/1.1");
    reveal_strlit("HOST: 239.255.255.250:1900");
    reveal_strlit("NT: ");
    reveal_strlit("NTS: ssdp:alive");
    reveal_strlit("LOCATION: http://");
    reveal_strlit(":3030/root.xml");
    reveal_strlit("USN: ");
    reveal_strlit("::");
    reveal_strlit("CACHE-CONTROL: max-age=1800");
    reveal_strlit("SERVER: Linux/5.8, UPnP/1.0, agni/1.0");
    let lines = broadcast_lines(ip, uuid, nt);
    assert(unbroken(lines[0]));
    assert(unbroken(lines[1]));
    assert(unbroken(lines[2]));
    assert(unbroken(lines[3]));
    assert(unbroken(lines[4]));
    assert(unbroken(lines[5]));
    assert(unbroken(lines[6]));
    assert(unbroken(lines[7]));
}

/// A date holds no line end.
pub proof fn law_date_unbroken(s: Seq<char>)
    requires
        is_date(s),
    ensures
        unbroken(s),
{
    let (weekday, month, year, hour, minute, second) = choose|
        weekday: int,
        month: int,
        year: Seq<char>,
        hour: int,
        minute: int,
        second: int,
    |
        {
            &&& 0 <= weekday < 7
            &&& 1 <= month <= 12
            &&& is_year(year)
            &&& 0 <= hour < 24
            &&& 0 <= minute < 60
            &&& 0 <= second <= 60
            &&& s == #[trigger] date_text(weekday, month, year, hour, minute, second)
        };
    unbroken_names(weekday, month);
    assert forall|i: int| 0 <= i < year.len() implies #[trigger] year[i] != '\r' && year[i]
        != '\n' by {
        if year.len() > 4 && i > 0 {
            assert(year.skip(1)[i - 1] == year[i]);
            assert(is_digit(year.skip(1)[i - 1]));
        }
    }
    reveal_strlit(", ");
    reveal_strlit(" ");
    reveal_strlit(":");
    reveal_strlit(" GMT");
    assert(unbroken(two_digits(month)));
    assert(unbroken(two_digits(hour)));
    assert(unbroken(two_digits(minute)));
    assert(unbroken(two_digits(second)));
}

/// Names of weekdays and months hold no line end.
proof fn unbroken_names(weekday: int, month: int)
    ensures
        unbroken(weekday_name(weekday)),
        unbroken(month_name(month)),
{
    reveal_strlit("Mon");
    reveal_strlit("Tue");
    reveal_strlit("Wed");
    reveal_strlit("Thu");
    reveal_strlit("Fri");
    reveal_strlit("Sat");
    reveal_strlit("Sun");
    reveal_strlit("Jan");
    reveal_strlit("Feb");
    reveal_strlit("Mar");
    reveal_strlit("Apr");
    reveal_strlit("May");
    reveal_strlit("Jun");
    reveal_strlit("Jul");
    reveal_strlit("Aug");
    reveal_strlit("Sep");
    reveal_strlit("Oct");
    reveal_strlit("Nov");
    reveal_strlit("Dec");
}

/// Hexadecimal text is made of digits and the letters up to f.
proof fn hex_chars(bytes: Seq<u8>)
    ensures
        forall|i: int|
            0 <= i < hex_text(bytes).len() ==> is_digit(#[trigger] hex_text(bytes)[i]) || 'a'
                <= hex_text(bytes)[i] <= 'f',
{
}

/// The text of an identifier is made of digits, the letters up to f, and dashes.
proof fn uuid_chars(b: Seq<u8>)
    requires
        b.len() == 16,
    ensures
        uuid_text(b).len() == 36,
        forall|i: int|
            0 <= i < 36 ==> is_digit(#[trigger] uuid_text(b)[i]) || 'a' <= uuid_text(b)[i] <= 'f'
                || uuid_text(b)[i] == '-',
{
    hex_chars(b.subrange(0, 4));
    hex_chars(b.subrange(4, 6));
    hex_chars(b.subrange(6, 8));
    hex_chars(b.subrange(8, 10));
    hex_chars(b.subrange(10, 16));
}

/// What the server makes known holds no line end.
pub proof fn law_targets_unbroken(b: Seq<u8>, k: int)
    requires
        b.len() == 16,
        0 <= k < 5,
    ensures
        unbroken(uuid_text(b)),
        unbroken(targets(uuid_text(b))[k]),
{
    uuid_chars(b);
    reveal_strlit("upnp:rootdevice");
    reveal_strlit("urn:schemas-upnp-org:device:MediaServer:1");
    reveal_strlit("urn:schemas-upnp-org:service:ContentDirectory:1");
    reveal_strlit("urn:schemas-upnp-org:service:ConnectionManager:1");
}

/// Whatever the server makes known, from an address without line ends, has proper lines.
pub proof fn law_presence_proper(ip: Seq<char>, b: Seq<u8>, k: int, date: Seq<char>)
    requires
        unbroken(ip),
        b.len() == 16,
        0 <= k < 5,
        is_date(date),
    ensures
        proper(reply_lines(ip, uuid_text(b), targets(uuid_text(b))[k], date)),
        proper(broadcast_lines(ip, uuid_text(b), targets(uuid_text(b))[k])),
{
    law_date_unbroken(date);
    law_targets_unbroken(b, k);
    law_reply_proper(ip, uuid_text(b), targets(uuid_text(b))[k], date);
    law_broadcast_proper(ip, uuid_text(b), targets(uuid_text(b))[k]);
}

/// The text holds no M that is followed by a dash, and does not end in M.
spec fn undashed(s: Seq<char>) -> bool {
    &&& forall|i: int| 0 <= i < s.len() - 1 ==> #[trigger] s[i] != 'M' || s[i + 1] != '-'
    &&& s.len() > 0 ==> s[s.len() - 1] != 'M'
}

/// The property goes over to the text of two texts.
proof fn undashed_joined(a: Seq<char>, b: Seq<char>)
    requires
        undashed(a),
        undashed(b),
    ensures
        undashed(a + b),
{
    let s = a + b;
    assert forall|i: int| 0 <= i < s.len() - 1 implies #[trigger] s[i] != 'M' || s[i + 1] != '-' by {
        if i >= a.len() {
            assert(s[i] == b[i - a.len()]);
        }
    }
}

/// The property goes over from the lines to the message.
proof fn undashed_framed(lines: Seq<Seq<char>>)
    requires
        forall|i: int| 0 <= i < lines.len() ==> undashed(#[trigger] lines[i]),
    ensures
        undashed(framed(lines)),
    decreases lines.len(),
{
    if lines.len() > 0 {
        assert forall|i: int| 0 <= i < lines.skip(1).len() implies undashed(
            #[trigger] lines.skip(1)[i],
        ) by {
            assert(lines.skip(1)[i] == lines[i + 1]);
        }
        undashed_framed(lines.skip(1));
        undashed_joined(lines[0], line_end());
        undashed_joined(lines[0] + line_end(), framed(lines.skip(1)));
    }
}

/// The server does not answer itself: what it sends to everyone is no search.
pub proof fn law_announcements_unanswered(ip: Seq<char>, b: Seq<u8>, k: int)
    requires
        b.len() == 16,
        0 <= k < 5,
        !ip.contains('M'),
    ensures
        !is_search(framed(broadcast_lines(ip, uuid_text(b), targets(uuid_text(b))[k]))),
{
    let uuid = uuid_text(b);
    let nt = targets(uuid)[k];
    let lines = broadcast_lines(ip, uuid, nt);
    uuid_chars(b);
    reveal_strlit("upnp:rootdevice");
    reveal_strlit("urn:schemas-upnp-org:device:MediaServer:1");
    reveal_strlit("urn:schemas-upnp-org:service:ContentDirectory:1");
    reveal_strlit("urn:schemas-upnp-org:service:ConnectionManager:1");
    assert(undashed(nt));
    assert(undashed(uuid));
    assert(undashed(ip)) by {
        assert(forall|i: int| 0 <= i < ip.len() ==> #[trigger] ip[i] != 'M');
    }
    undashed_lines(ip, uuid, nt);
    undashed_framed(lines);
    let text = framed(lines);
    reveal_strlit("M-SEARCH");
    assert forall|i: int| !occurs_at(text, "M-SEARCH"@, i) by {
        if occurs_at(text, "M-SEARCH"@, i) {
            let part = text.subrange(i, i + 8);
            assert(part[0] == 'M' && part[1] == '-');
            assert(text[i] == 'M' && text[i + 1] == '-');
        }
    }
}

/// The lines of a message to everyone have the property where what is put in has it.
proof fn undashed_lines(ip: Seq<char>, uuid: Seq<char>, nt: Seq<char>)
    requires
        undashed(ip),
        undashed(uuid),
        undashed(nt),
    ensures
        forall|i: int|
            0 <= i < broadcast_lines(ip, uuid, nt).len() ==> undashed(
                #[trigger] broadcast_lines(ip, uuid, nt)[i],
            ),
{
    reveal_strlit("NOTIFY * HTTP/1.1");
    reveal_strlit("HOST: 239.255.255.250:1900");
    reveal_strlit("NT: ");
    reveal_strlit("NTS: ssdp:alive");
    reveal_strlit("LOCATION: http://");
    reveal_strlit(":3030/root.xml");
    reveal_strlit("USN: ");
    reveal_strlit("::");
    reveal_strlit("CACHE-CONTROL: max-age=1800");
    reveal_strlit("SERVER: Linux/5.8, UPnP/1.0, agni/1.0");
    undashed_joined("NT: "@, nt);
    undashed_joined("LOCATION: http://"@, ip);
    undashed_joined("LOCATION: http://"@ + ip, ":3030/root.xml"@);
    undashed_joined("USN: "@, uuid);
    undashed_joined("USN: "@ + uuid, "::"@);
    undashed_joined("USN: "@ + uuid + "::"@, nt);
    let lines = broadcast_lines(ip, uuid, nt);
    assert(undashed(lines[0]));
    assert(undashed(lines[1]));
    assert(undashed(lines[3]));
    assert(undashed(lines[6]));
    assert(undashed(lines[7]));
}

} // verus!
