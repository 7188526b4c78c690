use hangar::models::{Flight, Hangar, OutputStream};
use hangar::persist::{decode_hangar, encode_hangar, PersistError};

fn sample_flight(name: &str, stream: OutputStream) -> Flight {
    Flight {
        name: name.to_string(),
        flight_exec: "git".to_string(),
        preflight_args: vec!["--version".to_string(), "".to_string(), "a|b:c".to_string()],
        stream,
        flag: "git version".to_string(),
        package_name: String::new(),
        reinstall: "apt-get --reinstall install {package_name}".to_string(),
    }
}

#[test]
fn encode_of_a_small_hangar_is_exact() {
    let h = Hangar { name: "A".to_string(), description: String::new(), flights: Vec::new() };
    assert_eq!(encode_hangar(&h), "1:A0:0:");
}

#[test]
fn encode_writes_flights_in_order() {
    let h = Hangar {
        name: "Dev".to_string(),
        description: "box".to_string(),
        flights: vec![Flight {
            name: "f".to_string(),
            flight_exec: "x".to_string(),
            preflight_args: vec!["-v".to_string()],
            stream: OutputStream::Stderr,
            flag: "ok".to_string(),
            package_name: String::new(),
            reinstall: String::new(),
        }],
    };
    assert_eq!(encode_hangar(&h), "3:Dev3:box1:1:f1:x1:2:-ve2:ok0:0:");
}

#[test]
fn round_trip_keeps_every_field() {
    let h = Hangar {
        name: "Dev Box".to_string(),
        description: "main machine: dev".to_string(),
        flights: vec![
            sample_flight("git check", OutputStream::Stdout),
            sample_flight("loud one", OutputStream::Stderr),
        ],
    };
    let text = encode_hangar(&h);
    let back = decode_hangar(&text).expect("an encoded hangar decodes");
    assert_eq!(back.name, h.name);
    assert_eq!(back.description, h.description);
    assert_eq!(back.flights.len(), 2);
    for (a, b) in back.flights.iter().zip(h.flights.iter()) {
        assert_eq!(a.name, b.name);
        assert_eq!(a.flight_exec, b.flight_exec);
        assert_eq!(a.preflight_args, b.preflight_args);
        assert!(matches!(
            (&a.stream, &b.stream),
            (OutputStream::Stdout, OutputStream::Stdout) | (OutputStream::Stderr, OutputStream::Stderr)
        ));
        assert_eq!(a.flag, b.flag);
        assert_eq!(a.package_name, b.package_name);
        assert_eq!(a.reinstall, b.reinstall);
    }
}

#[test]
fn round_trip_of_an_empty_flight_list() {
    let h = Hangar { name: "N".to_string(), description: "d".to_string(), flights: Vec::new() };
    let back = decode_hangar(&encode_hangar(&h)).expect("decodes");
    assert_eq!(back.name, "N");
    assert_eq!(back.description, "d");
    assert!(back.flights.is_empty());
}

#[test]
fn malformed_texts_are_rejected() {
    for text in [
        "",
        "junk",
        "1:A",
        "1:A0:",
        "1:A0:1:",
        "5:A0:0:",
        "1:A0:0:extra",
        "9999999999999999999999999999:A0:0:",
    ] {
        assert_eq!(decode_hangar(text).err(), Some(PersistError::Malformed), "{:?}", text);
    }
}

#[test]
fn stored_empty_names_are_rejected() {
    let nameless = Hangar { name: String::new(), description: "d".to_string(), flights: Vec::new() };
    let text = encode_hangar(&nameless);
    assert_eq!(decode_hangar(&text).err(), Some(PersistError::Malformed));
    let h = Hangar {
        name: "ok".to_string(),
        description: String::new(),
        flights: vec![Flight {
            name: String::new(),
            flight_exec: "x".to_string(),
            preflight_args: Vec::new(),
            stream: OutputStream::Stdout,
            flag: String::new(),
            package_name: String::new(),
            reinstall: String::new(),
        }],
    };
    let text = encode_hangar(&h);
    assert_eq!(decode_hangar(&text).err(), Some(PersistError::Malformed));
}

#[test]
fn counts_may_be_written_without_digits() {
    // A bare `:` reads as zero; the canonical form writes `0:`, but reading
    // is lenient about it.
    let h = decode_hangar("1:A::").expect("lenient zero counts");
    assert_eq!(h.name, "A");
    assert_eq!(h.description, "");
    assert!(h.flights.is_empty());
}
