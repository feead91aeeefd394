use agni::ssdp::{
    broadcast_message, broadcast_packet, broadcast_presence, cut_short, is_search_message,
    is_search_text, reply_message, reply_message_at, reply_presence, send_rounds,
};
use agni::types::AppUuid;

const UUID: &str = "01010101-0101-0101-0101-010101010101";

fn uuid() -> AppUuid {
    AppUuid::new([1; 16])
}

fn text(data: &[u8]) -> String {
    String::from_utf8(data.to_vec()).unwrap()
}

#[test]
fn reply_holds_what_was_put_in() {
    let m = reply_message_at("10.0.0.2", &uuid(), "upnp:rootdevice", "Mon, 01 Jan 2024 10:00:00 GMT");
    assert_eq!(
        text(&m),
        format!(
            "HTTP/1.1 200 OK\r\nCACHE-CONTROL: max-age=1800\r\nDATE: Mon, 01 Jan 2024 10:00:00 GMT\r\n\
             EXT:\r\nLOCATION: http://10.0.0.2:3030/root.xml\r\n\
             SERVER: Linux/5.8, UPnP/1.0, agni/1.0\r\nST: upnp:rootdevice\r\n\
             USN: {}::upnp:rootdevice\r\n\r\n",
            UUID
        )
    );
}

#[test]
fn reply_has_a_date() {
    let m = text(&reply_message("10.0.0.2", &uuid(), "x"));
    let line = m.split("\r\n").nth(2).unwrap();
    let date = line.strip_prefix("DATE: ").unwrap();
    let parts: Vec<&str> = date.split(' ').collect();
    assert_eq!(parts.len(), 6);
    assert!(["Mon,", "Tue,", "Wed,", "Thu,", "Fri,", "Sat,", "Sun,"].contains(&parts[0]));
    let months =
        ["Jan", "Feb", "Mar", "Apr", "May", "Jun", "Jul", "Aug", "Sep", "Oct", "Nov", "Dec"];
    let month: usize = parts[1].parse().unwrap();
    assert_eq!(parts[1].len(), 2);
    assert_eq!(parts[2], months[month - 1]);
    assert!(parts[3].parse::<u32>().unwrap() >= 1970);
    let clock: Vec<u32> = parts[4].split(':').map(|p| p.parse().unwrap()).collect();
    assert!(clock[0] < 24 && clock[1] < 60 && clock[2] <= 60);
    assert_eq!(parts[5], "GMT");
}

#[test]
fn message_to_everyone_holds_what_was_put_in() {
    assert_eq!(
        text(&broadcast_message("10.0.0.2", &uuid(), UUID)),
        format!(
            "NOTIFY * HTTP/1.1\r\nHOST: 239.255.255.250:1900\r\nNT: {0}\r\nNTS: ssdp:alive\r\n\
             LOCATION: http://10.0.0.2:3030/root.xml\r\nUSN: {0}::{0}\r\n\
             CACHE-CONTROL: max-age=1800\r\nSERVER: Linux/5.8, UPnP/1.0, agni/1.0\r\n\r\n",
            UUID
        )
    );
}

#[test]
fn presence_is_told_three_times_from_each_address() {
    let ips = vec!["10.0.0.2".to_string(), "10.0.1.2".to_string()];
    let packets = broadcast_presence(&ips, &uuid());
    assert_eq!(packets.len(), 30);
    let targets = [
        UUID,
        "upnp:rootdevice",
        "urn:schemas-upnp-org:device:MediaServer:1",
        "urn:schemas-upnp-org:service:ContentDirectory:1",
        "urn:schemas-upnp-org:service:ConnectionManager:1",
    ];
    for (j, p) in packets.iter().enumerate() {
        assert_eq!(p.to, "239.255.255.250:1900");
        assert_eq!(p.data, broadcast_message(&ips[j / 15], &uuid(), targets[j % 5]));
    }
    assert!(broadcast_presence(&vec![], &uuid()).is_empty());
}

#[test]
fn searches_are_answered_three_times() {
    let ips = vec!["10.0.0.2".to_string()];
    let packets = reply_presence(&ips, &uuid(), "10.0.0.9:5000");
    assert_eq!(packets.len(), 15);
    for (j, p) in packets.iter().enumerate() {
        assert_eq!(p.to, "10.0.0.9:5000");
        assert_eq!(p.data, packets[j % 5].data);
    }
    assert!(text(&packets[6].data).contains("ST: upnp:rootdevice\r\n"));
}

#[test]
fn rounds_repeat_all_messages() {
    let packets = send_rounds(&vec![vec![1], vec![2]], "x");
    let data: Vec<Vec<u8>> = packets.into_iter().map(|p| p.data).collect();
    assert_eq!(data, vec![vec![1], vec![2], vec![1], vec![2], vec![1], vec![2]]);
    assert!(send_rounds(&vec![], "x").is_empty());
}

#[test]
fn packets_to_everyone_are_not_logged() {
    let d = broadcast_packet(&None);
    assert_eq!(d.addr, "239.255.255.250:1900");
    assert!(!d.logged);
    let d = broadcast_packet(&Some("10.0.0.9:5000".to_string()));
    assert_eq!(d.addr, "10.0.0.9:5000");
    assert!(d.logged);
    assert!(!broadcast_packet(&Some("239.255.255.250:19001".to_string())).logged);
}

#[test]
fn cut_packets_are_noticed() {
    assert!(!cut_short(2, b"ab"));
    assert!(cut_short(1, b"ab"));
}

#[test]
fn searches_are_recognised() {
    let search = "M-SEARCH * HTTP/1.1\r\nMAN: \"ssdp:discover\"\r\n\
                  ST: urn:schemas-upnp-org:device:MediaServer:1\r\n\r\n";
    assert!(is_search_text(search));
    assert!(is_search_text("ContentDirectory ssdp:discover M-SEARCH"));
    assert!(!is_search_text("M-SEARCH ssdp:discover"));
    assert!(!is_search_text("M-SEARCH MediaServer"));
    assert!(!is_search_text("ssdp:discover MediaServer"));
    assert!(is_search_message(search.as_bytes()));
    assert!(is_search_message(b"\xffM-SEARCH ssdp:discover MediaServer"));
    assert!(!is_search_message(b"M-SEA\xffRCH ssdp:discover MediaServer"));
}

#[test]
fn server_does_not_answer_itself() {
    for p in broadcast_presence(&vec!["10.0.0.2".to_string()], &uuid()) {
        assert!(!is_search_message(&p.data));
    }
}

#[test]
fn message_ends_at_its_only_empty_line() {
    for p in reply_presence(&vec!["10.0.0.2".to_string()], &uuid(), "x") {
        let t = text(&p.data);
        assert_eq!(t.find("\r\n\r\n"), Some(t.len() - 4));
        assert_eq!(t.split("\r\n").count(), 10);
    }
}
