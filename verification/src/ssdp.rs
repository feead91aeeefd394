//! Making the server known: the messages, whom they go to, and which searches are answered.
use vstd::prelude::*;
use vstd::utf8::{decode_utf8, encode_utf8, valid_utf8};
use crate::outside::{from_utf8_lossy, utc_now, utf8_lossy};
use crate::text::{all_digits, contains, contains_text, texts};
use crate::types::AppUuid;

verus! {

/// The group that messages to everyone go to.
pub const MULTICAST_ADDRESS: &'static str = "239.255.255.250:1900";

/// The format of the date in a reply.
pub const DATE_FORMAT: &'static str = "%a, %m %b %Y %H:%M:%S GMT";

/// The short name of a weekday, counted from Monday.
pub open spec fn weekday_name(n: int) -> Seq<char> {
    if n == 0 {
        "Mon"@
    } else if n == 1 {
        "Tue"@
    } else if n == 2 {
        "Wed"@
    } else if n == 3 {
        "Thu"@
    } else if n == 4 {
        "Fri"@
    } else if n == 5 {
        "Sat"@
    } else {
        "Sun"@
    }
}

/// The short name of a month, counted from one.
pub open spec fn month_name(n: int) -> Seq<char> {
    if n == 1 {
        "Jan"@
    } else if n == 2 {
        "Feb"@
    } else if n == 3 {
        "Mar"@
    } else if n == 4 {
        "Apr"@
    } else if n == 5 {
        "May"@
    } else if n == 6 {
        "Jun"@
    } else if n == 7 {
        "Jul"@
    } else if n == 8 {
        "Aug"@
    } else if n == 9 {
        "Sep"@
    } else if n == 10 {
        "Oct"@
    } else if n == 11 {
        "Nov"@
    } else {
        "Dec"@
    }
}

/// A number below a hundred as two digits.
pub open spec fn two_digits(n: int) -> Seq<char> {
    seq![('0' as int + n / 10) as char, ('0' as int + n % 10) as char]
}

/// A year: four digits, or a sign and at least four.
pub open spec fn is_year(y: Seq<char>) -> bool {
    ||| y.len() == 4 && all_digits(y)
    ||| y.len() >= 5 && (y[0] == '+' || y[0] == '-') && all_digits(y.skip(1))
}

/// A date: the weekday, the month as a number and by name, the year and the time of day.
pub open spec fn date_text(
    weekday: int,
    month: int,
    year: Seq<char>,
    hour: int,
    minute: int,
    second: int,
) -> Seq<char> {
    weekday_name(weekday) + ", "@ + two_digits(month) + " "@ + month_name(month) + " "@ + year
        + " "@ + two_digits(hour) + ":"@ + two_digits(minute) + ":"@ + two_digits(second) + " GMT"@
}

/// The text is a date.
pub open spec fn is_date(s: Seq<char>) -> bool {
    exists|weekday: int, month: int, year: Seq<char>, hour: int, minute: int, second: int|
        {
            &&& 0 <= weekday < 7
            &&& 1 <= month <= 12
            &&& is_year(year)
            &&& 0 <= hour < 24
            &&& 0 <= minute < 60
            &&& 0 <= second <= 60
            &&& s == #[trigger] date_text(weekday, month, year, hour, minute, second)
        }
}

/// The end of a line.
pub open spec fn line_end() -> Seq<char> {
    seq!['\r', '\n']
}

/// A message: each line with its end, and an empty line behind the last.
pub open spec fn framed(lines: Seq<Seq<char>>) -> Seq<char>
    decreases lines.len(),
{
    if lines.len() == 0 {
        line_end()
    } else {
        lines[0] + line_end() + framed(lines.skip(1))
    }
}

/// The lines of a reply to a search.
pub open spec fn reply_lines(
    ip: Seq<char>,
    uuid: Seq<char>,
    st: Seq<char>,
    date: Seq<char>,
) -> Seq<Seq<char>> {
    seq![
        "HTTP/1.1 200 OK"@,
        "CACHE-CONTROL: max-age=1800"@,
        "DATE: "@ + date,
        "EXT:"@,
        "LOCATION: http://"@ + ip + ":3030/root.xml"@,
        "SERVER: Linux/5.8, UPnP/1.0, agni/1.0"@,
        "ST: "@ + st,
        "USN: "@ + uuid + "::"@ + st,
    ]
}

/// The lines of a message to everyone.
pub open spec fn broadcast_lines(ip: Seq<char>, uuid: Seq<char>, nt: Seq<char>) -> Seq<Seq<char>> {
    seq![
        "NOTIFY * HTTP/1.1"@,
        "HOST: 239.255.255.250:1900"@,
        "NT: "@ + nt,
        "NTS: ssdp:alive"@,
        "LOCATION: http://"@ + ip + ":3030/root.xml"@,
        "USN: "@ + uuid + "::"@ + nt,
        "CACHE-CONTROL: max-age=1800"@,
        "SERVER: Linux/5.8, UPnP/1.0, agni/1.0"@,
    ]
}

/// The bytes of a reply to a search.
pub open spec fn reply_bytes(
    ip: Seq<char>,
    uuid: Seq<char>,
    st: Seq<char>,
    date: Seq<char>,
) -> Seq<u8> {
    encode_utf8(framed(reply_lines(ip, uuid, st, date)))
}

/// The bytes of a message to everyone.
pub open spec fn broadcast_bytes(ip: Seq<char>, uuid: Seq<char>, nt: Seq<char>) -> Seq<u8> {
    encode_utf8(framed(broadcast_lines(ip, uuid, nt)))
}

/// The bytes are a reply to a search, with some date.
pub open spec fn is_reply(
    data: Seq<u8>,
    ip: Seq<char>,
    uuid: Seq<char>,
    st: Seq<char>,
) -> bool {
    exists|date: Seq<char>| is_date(date) && data == #[trigger] reply_bytes(ip, uuid, st, date)
}

/// Puts a message together.
fn frame(lines: &Vec<String>) -> (r: Vec<u8>)
    ensures
        r@ == encode_utf8(framed(texts(lines@))),
{
    let ghost all = texts(lines@);
    let mut text = String::new();
    let mut i: usize = 0;
    assert(all.skip(0) =~= all);
    assert(text@ + framed(all) =~= framed(all));
    while i < lines.len()
        invariant
            i <= lines@.len(),
            all == texts(lines@),
            text@ + framed(all.skip(i as int)) == framed(all),
        decreases lines@.len() - i,
    {
        let ghost before = text@;
        text.append(lines[i].as_str());
        text.push('\r');
        text.push('\n');
        proof {
            let rest = all.skip(i as int);
            assert(rest[0] == lines@[i as int]@);
            assert(rest.skip(1) =~= all.skip(i + 1));
            assert(before + (rest[0] + line_end() + framed(all.skip(i + 1))) =~= text@ + framed(
                all.skip(i + 1),
            ));
        }
        i += 1;
    }
    let ghost before = text@;
    text.push('\r');
    text.push('\n');
    assert(text@ =~= before + line_end());
    text.as_str().as_bytes_vec()
}

/// A reply to a search, with the given date.
pub fn reply_message_at(ip: &str, uuid: &AppUuid, st: &str, date: &str) -> (r: Vec<u8>)
    ensures
        r@ == reply_bytes(ip@, uuid@, st@, date@),
{
    let uuid_str = uuid.text();
    let mut lines: Vec<String> = Vec::new();
    lines.push("HTTP/1.1 200 OK".to_string());
    lines.push("CACHE-CONTROL: max-age=1800".to_string());
    lines.push("DATE: ".to_string().concat(date));
    lines.push("EXT:".to_string());
    lines.push("LOCATION: http://".to_string().concat(ip).concat(":3030/root.xml"));
    lines.push("SERVER: Linux/5.8, UPnP/1.0, agni/1.0".to_string());
    lines.push("ST: ".to_string().concat(st));
    lines.push("USN: ".to_string().concat(uuid_str.as_str()).concat("::").concat(st));
    assert(texts(lines@) =~= reply_lines(ip@, uuid@, st@, date@));
    frame(&lines)
}

/// A reply to a search, with the date of now.
pub fn reply_message(ip: &str, uuid: &AppUuid, st: &str) -> (r: Vec<u8>)
    ensures
        is_reply(r@, ip@, uuid@, st@),
{
    let date = utc_now(DATE_FORMAT);
    reply_message_at(ip, uuid, st, date.as_str())
}

/// A message to everyone.
pub fn broadcast_message(ip: &str, uuid: &AppUuid, nt: &str) -> (r: Vec<u8>)
    ensures
        r@ == broadcast_bytes(ip@, uuid@, nt@),
{
    let uuid_str = uuid.text();
    let mut lines: Vec<String> = Vec::new();
    lines.push("NOTIFY * HTTP/1.1".to_string());
    lines.push("HOST: 239.255.255.250:1900".to_string());
    lines.push("NT: ".to_string().concat(nt));
    lines.push("NTS: ssdp:alive".to_string());
    lines.push("LOCATION: http://".to_string().concat(ip).concat(":3030/root.xml"));
    lines.push("USN: ".to_string().concat(uuid_str.as_str()).concat("::").concat(nt));
    lines.push("CACHE-CONTROL: max-age=1800".to_string());
    lines.push("SERVER: Linux/5.8, UPnP/1.0, agni/1.0".to_string());
    assert(texts(lines@) =~= broadcast_lines(ip@, uuid@, nt@));
    frame(&lines)
}

/// What the server makes known: itself, that it is a device, its kind, and its two services.
pub open spec fn targets(uuid: Seq<char>) -> Seq<Seq<char>> {
    seq![
        uuid,
        "upnp:rootdevice"@,
        "urn:schemas-upnp-org:device:MediaServer:1"@,
        "urn:schemas-upnp-org:service:ContentDirectory:1"@,
        "urn:schemas-upnp-org:service:ConnectionManager:1"@,
    ]
}

/// What the server makes known.
fn target_list(uuid: &AppUuid) -> (r: Vec<String>)
    ensures
        texts(r@) == targets(uuid@),
{
    let mut r: Vec<String> = Vec::new();
    r.push(uuid.text());
    r.push("upnp:rootdevice".to_string());
    r.push("urn:schemas-upnp-org:device:MediaServer:1".to_string());
    r.push("urn:schemas-upnp-org:service:ContentDirectory:1".to_string());
    r.push("urn:schemas-upnp-org:service:ConnectionManager:1".to_string());
    assert(texts(r@) =~= targets(uuid@));
    r
}

/// A message and the address that it goes to.
pub struct Packet {
    pub data: Vec<u8>,
    pub to: String,
}

/// Where a packet goes: to one address, or to everyone.
pub open spec fn packet_address(unicast_ip: Option<String>) -> Seq<char> {
    match unicast_ip {
        Some(addr) => addr@,
        None => MULTICAST_ADDRESS@,
    }
}

/// How a packet is sent: to which address, and whether this is worth a line in the log.
pub struct Dispatch {
    pub addr: String,
    pub logged: bool,
}

/// Decides how a packet is sent. What goes to everyone is not logged.
pub fn broadcast_packet(unicast_ip: &Option<String>) -> (r: Dispatch)
    ensures
        r.addr@ == packet_address(*unicast_ip),
        *unicast_ip matches Some(addr) ==> r.addr@ == addr@,
        *unicast_ip is None ==> r.addr@ == "239.255.255.250:1900"@,
        r.logged == !contains(r.addr@, MULTICAST_ADDRESS@),
{
    let addr = match unicast_ip {
        Some(x) => x.clone(),
        None => MULTICAST_ADDRESS.to_string(),
    };
    let logged = !contains_text(addr.as_str(), MULTICAST_ADDRESS);
    Dispatch { addr, logged }
}

/// Whether a packet was not sent as a whole.
pub fn cut_short(bytes_written: usize, data: &[u8]) -> (r: bool)
    ensures
        r == (bytes_written != data@.len()),
{
    bytes_written != data.len()
}

/// How often each message is sent.
pub const ROUNDS: usize = 3;

/// Addresses messages, one round after another.
pub fn send_rounds(messages: &Vec<Vec<u8>>, to: &str) -> (r: Vec<Packet>)
    requires
        messages@.len() * ROUNDS <= usize::MAX,
    ensures
        r@.len() == messages@.len() * ROUNDS,
        forall|j: int|
            0 <= j < r@.len() ==> (#[trigger] r@[j]).to@ == to@ && r@[j].data@ == messages@[j
                % messages@.len() as int]@,
{
    let n: usize = messages.len();
    let mut r: Vec<Packet> = Vec::new();
    let mut round: usize = 0;
    while round < ROUNDS
        invariant
            round <= ROUNDS,
            n == messages@.len(),
            r@.len() == n * round,
            forall|j: int|
                0 <= j < r@.len() ==> (#[trigger] r@[j]).to@ == to@ && r@[j].data@ == messages@[j
                    % n as int]@,
        decreases ROUNDS - round,
    {
        let mut k: usize = 0;
        while k < n
            invariant
                k <= n,
                round < ROUNDS,
                n == messages@.len(),
                r@.len() == n * round + k,
                forall|j: int|
                    0 <= j < r@.len() ==> (#[trigger] r@[j]).to@ == to@ && r@[j].data@
                        == messages@[j % n as int]@,
            decreases n - k,
        {
            proof {
                assert(n * round == round * n) by (nonlinear_arith);
                vstd::arithmetic::div_mod::lemma_fundamental_div_mod_converse(
                    n * round + k,
                    n as int,
                    round as int,
                    k as int,
                );
            }
            let data = messages[k].clone();
            assert(data@ =~= messages@[k as int]@);
            r.push(Packet { data, to: to.to_string() });
            k += 1;
        }
        assert(n * (round + 1) == n * round + n) by (nonlinear_arith);
        round += 1;
    }
    r
}

/// What is sent in answer to a search, from each of the server's addresses: all that the server
/// makes known, three times over.
pub fn reply_presence(ips: &Vec<String>, uuid: &AppUuid, unicast_ip: &str) -> (r: Vec<Packet>)
    requires
        ips@.len() * 15 <= usize::MAX,
    ensures
        r@.len() == ips@.len() * 15,
        forall|j: int|
            0 <= j < r@.len() ==> {
                &&& (#[trigger] r@[j]).to@ == unicast_ip@
                &&& is_reply(r@[j].data@, ips@[j / 15]@, uuid@, targets(uuid@)[j % 5])
                &&& r@[j].data@ == r@[j / 15 * 15 + j % 5].data@
            },
{
    let names = target_list(uuid);
    let mut r: Vec<Packet> = Vec::new();
    let mut i: usize = 0;
    while i < ips.len()
        invariant
            i <= ips@.len(),
            ips@.len() * 15 <= usize::MAX,
            texts(names@) == targets(uuid@),
            r@.len() == i * 15,
            forall|j: int|
                0 <= j < r@.len() ==> {
                    &&& (#[trigger] r@[j]).to@ == unicast_ip@
                    &&& is_reply(r@[j].data@, ips@[j / 15]@, uuid@, targets(uuid@)[j % 5])
                    &&& r@[j].data@ == r@[j / 15 * 15 + j % 5].data@
                },
        decreases ips@.len() - i,
    {
        let mut messages: Vec<Vec<u8>> = Vec::new();
        let mut k: usize = 0;
        while k < names.len()
            invariant
                k <= names@.len(),
                i < ips@.len(),
                texts(names@) == targets(uuid@),
                messages@.len() == k,
                forall|m: int|
                    0 <= m < k ==> is_reply(
                        (#[trigger] messages@[m])@,
                        ips@[i as int]@,
                        uuid@,
                        targets(uuid@)[m],
                    ),
            decreases names@.len() - k,
        {
            assert(texts(names@)[k as int] == names@[k as int]@);
            messages.push(reply_message(ips[i].as_str(), uuid, names[k].as_str()));
            k += 1;
        }
        assert(texts(names@).len() == 5);
        let mut packets = send_rounds(&messages, unicast_ip);
        let ghost before = r@;
        let ghost more = packets@;
        r.append(&mut packets);
        proof {
            assert forall|j: int| 0 <= j < r@.len() implies {
                &&& (#[trigger] r@[j]).to@ == unicast_ip@
                &&& is_reply(r@[j].data@, ips@[j / 15]@, uuid@, targets(uuid@)[j % 5])
                &&& r@[j].data@ == r@[j / 15 * 15 + j % 5].data@
            } by {
                let first = j / 15 * 15 + j % 5;
                if j < before.len() {
                    assert(r@[j] == before[j]);
                    assert(r@[first] == before[first]);
                } else {
                    let m = j - before.len();
                    assert(r@[j] == more[m]);
                    assert(j / 15 == i as int && j % 5 == m % 5);
                    assert(r@[first] == more[m % 5]);
                    assert(more[m].data@ == messages@[m % 5]@);
                    assert(more[m % 5].data@ == messages@[m % 5 % 5]@);
                }
            }
        }
        i += 1;
    }
    r
}

/// What is sent to everyone, from each of the server's addresses: all that the server makes known,
/// three times over.
pub fn broadcast_presence(ips: &Vec<String>, uuid: &AppUuid) -> (r: Vec<Packet>)
    requires
        ips@.len() * 15 <= usize::MAX,
    ensures
        r@.len() == ips@.len() * 15,
        forall|j: int|
            0 <= j < r@.len() ==> {
                &&& (#[trigger] r@[j]).to@ == MULTICAST_ADDRESS@
                &&& r@[j].data@ == broadcast_bytes(ips@[j / 15]@, uuid@, targets(uuid@)[j % 5])
            },
{
    let names = target_list(uuid);
    let mut r: Vec<Packet> = Vec::new();
    let mut i: usize = 0;
    while i < ips.len()
        invariant
            i <= ips@.len(),
            ips@.len() * 15 <= usize::MAX,
            texts(names@) == targets(uuid@),
            r@.len() == i * 15,
            forall|j: int|
                0 <= j < r@.len() ==> {
                    &&& (#[trigger] r@[j]).to@ == MULTICAST_ADDRESS@
                    &&& r@[j].data@ == broadcast_bytes(ips@[j / 15]@, uuid@, targets(uuid@)[j % 5])
                },
        decreases ips@.len() - i,
    {
        let mut messages: Vec<Vec<u8>> = Vec::new();
        let mut k: usize = 0;
        while k < names.len()
            invariant
                k <= names@.len(),
                i < ips@.len(),
                texts(names@) == targets(uuid@),
                messages@.len() == k,
                forall|m: int|
                    0 <= m < k ==> (#[trigger] messages@[m])@ == broadcast_bytes(
                        ips@[i as int]@,
                        uuid@,
                        targets(uuid@)[m],
                    ),
            decreases names@.len() - k,
        {
            assert(texts(names@)[k as int] == names@[k as int]@);
            messages.push(broadcast_message(ips[i].as_str(), uuid, names[k].as_str()));
            k += 1;
        }
        assert(texts(names@).len() == 5);
        let mut packets = send_rounds(&messages, MULTICAST_ADDRESS);
        let ghost before = r@;
        let ghost more = packets@;
        r.append(&mut packets);
        proof {
            assert forall|j: int| 0 <= j < r@.len() implies {
                &&& (#[trigger] r@[j]).to@ == MULTICAST_ADDRESS@
                &&& r@[j].data@ == broadcast_bytes(ips@[j / 15]@, uuid@, targets(uuid@)[j % 5])
            } by {
                if j < before.len() {
                    assert(r@[j] == before[j]);
                } else {
                    let m = j - before.len();
                    assert(r@[j] == more[m]);
                    assert(j / 15 == i as int && j % 5 == m % 5);
                    assert(more[m].data@ == messages@[m % 5]@);
                }
            }
        }
        i += 1;
    }
    r
}

/// A search that concerns a media server.
pub open spec fn is_search(text: Seq<char>) -> bool {
    &&& contains(text, "M-SEARCH"@)
    &&& contains(text, "ssdp:discover"@)
    &&& contains(text, "MediaServer"@) || contains(text, "ContentDirectory"@)
}

/// Whether a text is a search that concerns a media server.
pub fn is_search_text(text: &str) -> (r: bool)
    ensures
        r == is_search(text@),
{
    contains_text(text, "M-SEARCH") && contains_text(text, "ssdp:discover") && (contains_text(
        text,
        "MediaServer",
    ) || contains_text(text, "ContentDirectory"))
}

/// Whether a message that has come in is a search to be answered.
pub fn is_search_message(data: &[u8]) -> (r: bool)
    ensures
        r == is_search(utf8_lossy(data@)),
        valid_utf8(data@) ==> r == is_search(decode_utf8(data@)),
{
    let text = from_utf8_lossy(data);
    is_search_text(text.as_str())
}

} // verus!
