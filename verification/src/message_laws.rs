//! What is sent and what is answered, in terms of the characters alone.
use vstd::prelude::*;
use vstd::utf8::encode_utf8;
use crate::net::{
    any_interface, explanation, is_group, join_outcome, join_steps, local_ips, ssdp_group, v4_only,
    Interface, IpAddr, JoinError, SocketAddr, SocketStep,
};
use crate::reply::{root_page, SERVER_NAME};
use crate::ssdp::{
    broadcast_bytes, broadcast_lines, date_text, framed, is_date, is_reply, is_search, is_year,
    month_name, packet_address, reply_bytes, reply_lines, targets, two_digits, weekday_name,
};
use crate::text::{contains, occurs_at, replaced};
use crate::text_laws::{law_contains, law_occurs_at};

verus! {

/// A text is a search as soon as the three words stand in it, at whatever places and whatever else it
/// holds.
pub proof fn law_search_found(text: Seq<char>, i: int, j: int, k: int)
    requires
        0 <= i <= text.len() - 8 && text.subrange(i, i + 8) == "M-SEARCH"@,
        0 <= j <= text.len() - 13 && text.subrange(j, j + 13) == "ssdp:discover"@,
        ({
            ||| 0 <= k <= text.len() - 11 && text.subrange(k, k + 11) == "MediaServer"@
            ||| 0 <= k <= text.len() - 16 && text.subrange(k, k + 16) == "ContentDirectory"@
        }),
    ensures
        is_search(text),
{
    reveal_strlit("M-SEARCH");
    reveal_strlit("ssdp:discover");
    reveal_strlit("MediaServer");
    reveal_strlit("ContentDirectory");
    assert(occurs_at(text, "M-SEARCH"@, i));
    assert(occurs_at(text, "ssdp:discover"@, j));
    assert(occurs_at(text, "MediaServer"@, k) || occurs_at(text, "ContentDirectory"@, k));
}

/// A text is a search exactly if each of the words stands in it with something before and behind.
pub proof fn law_search_words(text: Seq<char>)
    ensures
        is_search(text) <==> {
            &&& exists|a: Seq<char>, b: Seq<char>| text == #[trigger] (a + "M-SEARCH"@ + b)
            &&& exists|a: Seq<char>, b: Seq<char>| text == #[trigger] (a + "ssdp:discover"@ + b)
            &&& {
                ||| exists|a: Seq<char>, b: Seq<char>| text == #[trigger] (a + "MediaServer"@ + b)
                ||| exists|a: Seq<char>, b: Seq<char>|
                    text == #[trigger] (a + "ContentDirectory"@ + b)
            }
        },
{
    law_contains(text, "M-SEARCH"@);
    law_contains(text, "ssdp:discover"@);
    law_contains(text, "MediaServer"@);
    law_contains(text, "ContentDirectory"@);
}

/// What is a search stays one, whatever is put before and behind it.
pub proof fn law_search_kept(a: Seq<char>, text: Seq<char>, b: Seq<char>)
    requires
        is_search(text),
    ensures
        is_search(a + text + b),
{
    kept_within(a, text, b, "M-SEARCH"@);
    kept_within(a, text, b, "ssdp:discover"@);
    kept_within(a, text, b, "MediaServer"@);
    kept_within(a, text, b, "ContentDirectory"@);
}

/// What a text holds, a longer one holds.
proof fn kept_within(a: Seq<char>, s: Seq<char>, b: Seq<char>, p: Seq<char>)
    ensures
        contains(s, p) ==> contains(a + s + b, p),
{
    if contains(s, p) {
        let i = choose|i: int| occurs_at(s, p, i);
        let all = a + s + b;
        law_occurs_at(s, p, i);
        assert forall|k: int| 0 <= k < p.len() implies all[a.len() + i + k] == #[trigger] p[k] by {
            assert(all[a.len() + (i + k)] == s[i + k]);
        }
        law_occurs_at(all, p, a.len() + i);
    }
}

/// A message as clients send it is answered, whichever host and waiting time it names and whatever
/// version of the device or the service it looks for.
pub proof fn law_usual_search(
    host: Seq<char>,
    mx: Seq<char>,
    before: Seq<char>,
    behind: Seq<char>,
)
    ensures
        is_search(
            "M-SEARCH * HTTP/1.1\r\nHOST: "@ + host + "\r\nMAN: \"ssdp:discover\"\r\nMX: "@ + mx
                + "\r\nST: "@ + before + "MediaServer"@ + behind + "\r\n\r\n"@,
        ),
        is_search(
            "M-SEARCH * HTTP/1.1\r\nHOST: "@ + host + "\r\nMAN: \"ssdp:discover\"\r\nMX: "@ + mx
                + "\r\nST: "@ + before + "ContentDirectory"@ + behind + "\r\n\r\n"@,
        ),
{
    reveal_strlit("M-SEARCH * HTTP/1.1\r\nHOST: ");
    reveal_strlit("\r\nMAN: \"ssdp:discover\"\r\nMX: ");
    reveal_strlit("\r\nST: ");
    reveal_strlit("\r\n\r\n");
    reveal_strlit("M-SEARCH");
    reveal_strlit("ssdp:discover");
    reveal_strlit("MediaServer");
    reveal_strlit("ContentDirectory");
    let head = "M-SEARCH * HTTP/1.1\r\nHOST: "@ + host;
    let middle = head + "\r\nMAN: \"ssdp:discover\"\r\nMX: "@ + mx + "\r\nST: "@ + before;
    let j: int = head.len() as int + 8;
    let k: int = middle.len() as int;
    let one = middle + "MediaServer"@ + behind + "\r\n\r\n"@;
    assert(one.subrange(0, 8) =~= "M-SEARCH"@);
    assert(one.subrange(j, j + 13) =~= "ssdp:discover"@);
    assert(one.subrange(k, k + 11) =~= "MediaServer"@);
    law_search_found(one, 0, j, k);
    let other = middle + "ContentDirectory"@ + behind + "\r\n\r\n"@;
    assert(other.subrange(0, 8) =~= "M-SEARCH"@);
    assert(other.subrange(j, j + 13) =~= "ssdp:discover"@);
    assert(other.subrange(k, k + 16) =~= "ContentDirectory"@);
    law_search_found(other, 0, j, k);
}

/// A message is its lines, each with a line end behind it, and one more line end.
pub proof fn law_framed(line: Seq<char>, lines: Seq<Seq<char>>)
    ensures
        framed(Seq::<Seq<char>>::empty()) == seq!['\r', '\n'],
        framed(seq![line] + lines) == line + seq!['\r', '\n'] + framed(lines),
{
    let all = seq![line] + lines;
    assert(all.skip(1) =~= lines);
    assert(all[0] == line);
}

/// The text of a reply to a search.
pub proof fn law_reply_text(ip: Seq<char>, uuid: Seq<char>, st: Seq<char>, date: Seq<char>)
    ensures
        ({
            let end = seq!['\r', '\n'];
            reply_bytes(ip, uuid, st, date) == encode_utf8(
                "HTTP/1.1 200 OK"@ + end + ("CACHE-CONTROL: max-age=1800"@ + end + (("DATE: "@
                    + date) + end + ("EXT:"@ + end + (("LOCATION: http://"@ + ip
                    + ":3030/root.xml"@) + end + ("SERVER: Linux/5.8, UPnP/1.0, agni/1.0"@ + end + ((
                "ST: "@ + st) + end + (("USN: "@ + uuid + "::"@ + st) + end + end))))))),
            )
        }),
{
    eight_framed(reply_lines(ip, uuid, st, date));
}

/// The text of a message to everyone.
pub proof fn law_broadcast_text(ip: Seq<char>, uuid: Seq<char>, nt: Seq<char>)
    ensures
        ({
            let end = seq!['\r', '\n'];
            broadcast_bytes(ip, uuid, nt) == encode_utf8(
                "NOTIFY * HTTP/1.1"@ + end + ("HOST: 239.255.255.250:1900"@ + end + (("NT: "@ + nt)
                    + end + ("NTS: ssdp:alive"@ + end + (("LOCATION: http://"@ + ip
                    + ":3030/root.xml"@) + end + (("USN: "@ + uuid + "::"@ + nt) + end + (
                "CACHE-CONTROL: max-age=1800"@ + end + ("SERVER: Linux/5.8, UPnP/1.0, agni/1.0"@
                    + end + end))))))),
            )
        }),
{
    eight_framed(broadcast_lines(ip, uuid, nt));
}

/// A message of eight lines.
proof fn eight_framed(l: Seq<Seq<char>>)
    requires
        l.len() == 8,
    ensures
        ({
            let end = seq!['\r', '\n'];
            framed(l) == l[0] + end + (l[1] + end + (l[2] + end + (l[3] + end + (l[4] + end + (l[5]
                + end + (l[6] + end + (l[7] + end + end)))))))
        }),
{
    let none = Seq::<Seq<char>>::empty();
    law_framed(l[7], none);
    assert(l.skip(7) =~= seq![l[7]] + none);
    law_framed(l[6], l.skip(7));
    assert(l.skip(6) =~= seq![l[6]] + l.skip(7));
    law_framed(l[5], l.skip(6));
    assert(l.skip(5) =~= seq![l[5]] + l.skip(6));
    law_framed(l[4], l.skip(5));
    assert(l.skip(4) =~= seq![l[4]] + l.skip(5));
    law_framed(l[3], l.skip(4));
    assert(l.skip(3) =~= seq![l[3]] + l.skip(4));
    law_framed(l[2], l.skip(3));
    assert(l.skip(2) =~= seq![l[2]] + l.skip(3));
    law_framed(l[1], l.skip(2));
    assert(l.skip(1) =~= seq![l[1]] + l.skip(2));
    law_framed(l[0], l.skip(1));
    assert(l =~= seq![l[0]] + l.skip(1));
}

/// What answers a search carries some date, and is otherwise fixed.
pub proof fn law_reply_dated(data: Seq<u8>, ip: Seq<char>, uuid: Seq<char>, st: Seq<char>)
    ensures
        is_reply(data, ip, uuid, st) <==> exists|date: Seq<char>|
            is_date(date) && data == #[trigger] reply_bytes(ip, uuid, st, date),
{
}

/// A date, character by character: three letters of the weekday, the month by number and by name, the year
/// and the time of day.
pub proof fn law_date_written(
    weekday: int,
    month: int,
    year: Seq<char>,
    hour: int,
    minute: int,
    second: int,
)
    requires
        0 <= weekday < 7,
        1 <= month <= 12,
        is_year(year),
        0 <= hour < 24,
        0 <= minute < 60,
        0 <= second <= 60,
    ensures
        ({
            let s = date_text(weekday, month, year, hour, minute, second);
            let n: int = 12 + year.len() as int;
            &&& is_date(s)
            &&& s.len() == year.len() + 25
            &&& s.subrange(0, 3) == weekday_name(weekday)
            &&& s[3] == ',' && s[4] == ' ' && s[7] == ' ' && s[11] == ' '
            &&& 10 * (s[5] as int - 48) + (s[6] as int - 48) == month
            &&& s.subrange(8, 11) == month_name(month)
            &&& s.subrange(12, n) == year
            &&& s[n] == ' ' && s[n + 3] == ':' && s[n + 6] == ':'
            &&& 10 * (s[n + 1] as int - 48) + (s[n + 2] as int - 48) == hour
            &&& 10 * (s[n + 4] as int - 48) + (s[n + 5] as int - 48) == minute
            &&& 10 * (s[n + 7] as int - 48) + (s[n + 8] as int - 48) == second
            &&& s.skip(n + 9) == " GMT"@
        }),
{
    three_letters(weekday, month);
    reveal_strlit(", ");
    reveal_strlit(" ");
    reveal_strlit(":");
    reveal_strlit(" GMT");
    let s = date_text(weekday, month, year, hour, minute, second);
    let n: int = 12 + year.len() as int;
    assert(s.subrange(0, 3) =~= weekday_name(weekday));
    assert(s.subrange(8, 11) =~= month_name(month));
    assert(s.subrange(12, n) =~= year);
    assert(s.skip(n + 9) =~= " GMT"@);
    assert(s[5] == two_digits(month)[0] && s[6] == two_digits(month)[1]);
    assert(s[n + 1] == two_digits(hour)[0] && s[n + 2] == two_digits(hour)[1]);
    assert(s[n + 4] == two_digits(minute)[0] && s[n + 5] == two_digits(minute)[1]);
    assert(s[n + 7] == two_digits(second)[0] && s[n + 8] == two_digits(second)[1]);
}

/// Names have three letters.
proof fn three_letters(weekday: int, month: int)
    ensures
        weekday_name(weekday).len() == 3,
        month_name(month).len() == 3,
{
    reveal_strlit("Mon");
    reveal_strlit("Tue");
    reveal_strlit("Wed");
    reveal_strlit("Thu");
    reveal_strlit("Fri");
    reveal_strlit("Sat");
    reveal_strlit("Sun");
    reveal_strlit("Jan");
    reveal_strlit("Feb");
    reveal_strlit("Mar");
    reveal_strlit("Apr");
    reveal_strlit("May");
    reveal_strlit("Jun");
    reveal_strlit("Jul");
    reveal_strlit("Aug");
    reveal_strlit("Sep");
    reveal_strlit("Oct");
    reveal_strlit("Nov");
    reveal_strlit("Dec");
}

/// What the server makes known.
pub proof fn law_targets(uuid: Seq<char>)
    ensures
        targets(uuid).len() == 5,
        targets(uuid)[0] == uuid,
        targets(uuid)[1] == "upnp:rootdevice"@,
        targets(uuid)[2] == "urn:schemas-upnp-org:device:MediaServer:1"@,
        targets(uuid)[3] == "urn:schemas-upnp-org:service:ContentDirectory:1"@,
        targets(uuid)[4] == "urn:schemas-upnp-org:service:ConnectionManager:1"@,
{
}

/// A packet goes where it is told to, or else to everyone.
pub proof fn law_packet_address(addr: String)
    ensures
        packet_address(Some(addr)) == addr@,
        packet_address(None) == "239.255.255.250:1900"@,
{
}

/// Which addresses stand for a group.
pub proof fn law_groups(octets: [u8; 4], segments: [u16; 8])
    ensures
        is_group(IpAddr::V4(octets)) <==> octets[0] / 16 == 14,
        is_group(IpAddr::V6(segments)) <==> segments[0] / 256 == 255,
{
}

/// What becomes of a request to join a group, and by which steps.
pub proof fn law_join(group: SocketAddr, interface: SocketAddr, index: u32)
    ensures
        !is_group(group.ip) ==> join_outcome(group, interface) == Err::<(), _>(
            JoinError::NotMulticast,
        ) && join_steps(group, interface, index).len() == 0,
        is_group(group.ip) && group.ip is V4 && interface.ip is V6 ==> join_outcome(
            group,
            interface,
        ) == Err::<(), _>(JoinError::InterfaceMismatch) && join_steps(group, interface, index)
            == seq![SocketStep::CreateV4],
        is_group(group.ip) ==> (group.ip matches IpAddr::V4(g) ==> interface.ip matches IpAddr::V4(
            i,
        ) ==> {
            &&& join_outcome(group, interface) == Ok::<_, JoinError>(())
            &&& join_steps(group, interface, index) == seq![
                SocketStep::CreateV4,
                SocketStep::JoinV4 { group: g, interface: i },
                SocketStep::LoopV4,
                SocketStep::NonBlocking,
                SocketStep::ReuseAddress,
                SocketStep::ReusePort,
                SocketStep::Bind { addr: group },
                SocketStep::Adopt,
            ]
        }),
        is_group(group.ip) ==> (group.ip matches IpAddr::V6(segments) ==> {
            &&& join_outcome(group, interface) == Ok::<_, JoinError>(())
            &&& join_steps(group, interface, index) == seq![
                SocketStep::CreateV6,
                SocketStep::OnlyV6,
                SocketStep::JoinV6 { segments, index },
                SocketStep::NonBlocking,
                SocketStep::ReuseAddress,
                SocketStep::ReusePort,
                SocketStep::Bind { addr: group },
                SocketStep::Adopt,
            ]
        }),
{
}

/// The group in which media servers and their clients meet is joined from any interface.
pub proof fn law_own_group()
    ensures
        join_steps(ssdp_group(), any_interface(), 0) == seq![
            SocketStep::CreateV4,
            SocketStep::JoinV4 { group: [239u8, 255, 255, 250], interface: [0u8, 0, 0, 0] },
            SocketStep::LoopV4,
            SocketStep::NonBlocking,
            SocketStep::ReuseAddress,
            SocketStep::ReusePort,
            SocketStep::Bind {
                addr: SocketAddr {
                    ip: IpAddr::V4([239u8, 255, 255, 250]),
                    port: 1900,
                    flowinfo: 0,
                    scope_id: 0,
                },
            },
            SocketStep::Adopt,
        ],
{
}

/// Which failed steps are explained, and how.
pub proof fn law_explanations(step: SocketStep)
    ensures
        explanation(step) is None <==> step is JoinV4 || step is LoopV4 || step is OnlyV6 || step
            is Bind,
        step is CreateV4 ==> explanation(step) == Some("Failed to create IPV4 socket"@),
        step is CreateV6 ==> explanation(step) == Some("Failed to create IPV6 socket"@),
        step is JoinV6 ==> explanation(step) == Some("Failed to join multicast address"@),
        step is NonBlocking ==> explanation(step) == Some("Nonblocking Error"@),
        step is ReuseAddress ==> explanation(step) == Some("Reuse Addr Error"@),
        step is ReusePort ==> explanation(step) == Some("Reuse Port Error"@),
        step is Adopt ==> explanation(step) == Some("Failed to create Tokio UDP Socket"@),
{
}

/// The addresses of one interface are taken in order, and all of the older kind.
pub proof fn law_addresses_taken(ip: IpAddr, rest: Seq<IpAddr>)
    ensures
        v4_only(Seq::<IpAddr>::empty()) == Seq::<IpAddr>::empty(),
        ip is V4 ==> v4_only(seq![ip] + rest) == seq![ip] + v4_only(rest),
        ip is V6 ==> v4_only(seq![ip] + rest) == v4_only(rest),
{
    let all = seq![ip] + rest;
    assert(all.skip(1) =~= rest);
    assert(all[0] == ip);
}

/// The interfaces are gone through in order; one that does not reach groups and everyone adds nothing.
pub proof fn law_interfaces_taken(a: Seq<Interface>, i: Interface)
    ensures
        local_ips(Seq::<Interface>::empty()) == Seq::<IpAddr>::empty(),
        i.multicast && i.broadcast ==> local_ips(a.push(i)) == local_ips(a) + v4_only(i.ips@),
        !i.multicast || !i.broadcast ==> local_ips(a.push(i)) == local_ips(a),
    decreases a.len(),
{
    let all = a.push(i);
    if a.len() == 0 {
        assert(all.skip(1) =~= Seq::<Interface>::empty());
        assert(all[0] == i);
        assert(local_ips(all.skip(1)) =~= Seq::<IpAddr>::empty());
        assert(local_ips(a) =~= Seq::<IpAddr>::empty());
        assert(v4_only(i.ips@) + Seq::<IpAddr>::empty() =~= v4_only(i.ips@));
        assert(Seq::<IpAddr>::empty() + v4_only(i.ips@) =~= v4_only(i.ips@));
    } else {
        assert(all.skip(1) =~= a.skip(1).push(i));
        assert(all[0] == a[0]);
        law_interfaces_taken(a.skip(1), i);
        assert(local_ips(a.push(i)) =~= if i.multicast && i.broadcast {
            local_ips(a) + v4_only(i.ips@)
        } else {
            local_ips(a)
        });
    }
}

/// The device description is its page, with the name and the identity in the places of their marks and all
/// else as it stands.
pub proof fn law_root_page(c: char, s: Seq<char>, uuid: Seq<char>)
    requires
        c != '{',
    ensures
        root_page(Seq::<char>::empty(), uuid) == Seq::<char>::empty(),
        root_page(seq![c] + s, uuid) == seq![c] + root_page(s, uuid),
        root_page("{name}"@ + s, uuid) == "Actix-Rednithin-Dev"@ + root_page(s, uuid),
        root_page("{uuid}"@ + s, uuid) == uuid + root_page(s, uuid),
{
    reveal_strlit("{name}");
    reveal_strlit("{uuid}");
    reveal_strlit("Actix-Rednithin-Dev");
    let (n, u) = ("{name}"@, "{uuid}"@);
    let name = SERVER_NAME@;
    assert(name == "Actix-Rednithin-Dev"@);
    let r = replaced(s, n, name);
    let none = Seq::<char>::empty();
    assert(root_page(none, uuid) =~= none);
    unmarked(seq![c], s, n, name);
    unmarked(seq![c], r, u, uuid);
    marked(s, n, name);
    unmarked(name, r, u, uuid);
    assert(u =~= seq!['{'] + "uuid}"@) by {
        reveal_strlit("uuid}");
    }
    let tail = "uuid}"@ + s;
    assert(u + s =~= seq!['{'] + tail);
    let all = u + s;
    assert(all.take(6)[1] == 'u');
    assert(all.skip(1) =~= tail);
    assert(all[0] == '{');
    assert(replaced(all, n, name) == seq!['{'] + replaced(tail, n, name));
    assert forall|i: int| 0 <= i < "uuid}"@.len() implies "uuid}"@[i] != n[0] by {
        reveal_strlit("uuid}");
    }
    unmarked("uuid}"@, s, n, name);
    assert(seq!['{'] + ("uuid}"@ + r) =~= u + r);
    marked(r, u, uuid);
}

/// What holds no beginning of a mark stays.
proof fn unmarked(a: Seq<char>, s: Seq<char>, from: Seq<char>, to: Seq<char>)
    requires
        from.len() > 0,
        forall|i: int| 0 <= i < a.len() ==> a[i] != from[0],
    ensures
        replaced(a + s, from, to) == a + replaced(s, from, to),
    decreases a.len(),
{
    let all = a + s;
    if a.len() == 0 {
        assert(all =~= s);
        assert(a + replaced(s, from, to) =~= replaced(s, from, to));
    } else {
        let rest = a.skip(1);
        assert(all.skip(1) =~= rest + s);
        assert forall|i: int| 0 <= i < rest.len() implies rest[i] != from[0] by {
            assert(rest[i] == a[i + 1]);
        }
        unmarked(rest, s, from, to);
        let r = replaced(s, from, to);
        assert(seq![a[0]] + (rest + r) =~= a + r);
        if all.len() >= from.len() {
            assert(all.take(from.len() as int)[0] == a[0]);
        } else {
            assert(replaced(all, from, to) =~= all);
            assert(replaced(s, from, to) =~= s);
        }
    }
}

/// A mark in front is replaced.
proof fn marked(s: Seq<char>, from: Seq<char>, to: Seq<char>)
    requires
        from.len() > 0,
    ensures
        replaced(from + s, from, to) == to + replaced(s, from, to),
{
    let all = from + s;
    assert(all.take(from.len() as int) =~= from);
    assert(all.skip(from.len() as int) =~= s);
}

} // verus!
