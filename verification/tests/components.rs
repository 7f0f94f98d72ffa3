use vobject::parse_component;
use vobject::property::Property;
use vobject::write_component;
use vobject::Component;

#[test]
fn lib_test_vcard_basic() {
    let item = parse_component(
        "BEGIN:VCARD\n\
        VERSION:2.1\n\
        N:Mustermann;Erika\n\
        FN:Erika Mustermann\n\
        ORG:Wikipedia\n\
        TITLE:Oberleutnant\n\
        PHOTO;JPEG:http://commons.wikimedia.org/wiki/File:Erika_Mustermann_2010.jpg\n\
        TEL;WORK;VOICE:(0221) 9999123\n\n\n\
        TEL;HOME;VOICE:(0221) 1234567\n\
        ADR;HOME:;;Heidestrasse 17;Koeln;;51147;Deutschland\n\
        EMAIL;PREF;INTERNET:erika@mustermann.de\n\
        REV:20140301T221110Z\n\
        END:VCARD\n\r\n\n",
    )
    .unwrap();

    assert_eq!(item.get_only("FN").unwrap().raw_value, "Erika Mustermann".to_owned());
    assert_eq!(item.get_only("N").unwrap().raw_value, "Mustermann;Erika".to_owned());

    let tels = item.get_all("TEL");
    let mut tel_values = tels.iter().map(|x| &x.raw_value[..]);
    assert_eq!(tel_values.next().unwrap(), "(0221) 9999123".to_owned());
    assert_eq!(tel_values.next().unwrap(), "(0221) 1234567".to_owned());
    assert!(tel_values.next().is_none());
}

#[test]
fn test_line_cont() {
    let item = parse_component(
        "BEGIN:VCARD\n\
        VERSION:2.1\n\
        N;ENCODING=QUOTED-PRINTABLE:Nikdo;Nikdo=\n\t\
        vic\n\
        FN;ENCODING=QUOTED-PRINT\n \
        ABLE:Alice;Alice=vic\n\
        NOTE:This ends with equal sign=\n\
        TEL;WORK:5555\n \
        4444\n\
        END:VCARD",
    )
    .unwrap();

    assert_eq!(item.name, "VCARD".to_owned());
    assert_eq!(item.get_only("TEL").unwrap().raw_value, "55554444".to_owned());
    assert_eq!(item.get_only("N").unwrap().raw_value, "Nikdo;Nikdo=vic".to_owned());
    assert_eq!(item.get_only("FN").unwrap().raw_value, "Alice;Alice=vic".to_owned());
}

#[test]
fn test_icalendar_basic() {
    let item = parse_component(
        "BEGIN:VCALENDAR\n\
            VERSION:2.0\n\
            PRODID:http://www.example.com/calendarapplication/\n\
            METHOD:PUBLISH\n\
            BEGIN:VEVENT\n\
            UID:461092315540@example.com\n\
            ORGANIZER;CN=\"Alice Balder, Example Inc.\":MAILTO:alice@example.com\n\
            LOCATION:Somewhere\n\
            SUMMARY:Eine Kurzinfo\n\
            DESCRIPTION:Beschreibung des Termines\n\
            CLASS:PUBLIC\n\
            DTSTART:20060910T220000Z\n\
            DTEND:20060919T215900Z\n\
            DTSTAMP:20060812T125900Z\n\
            END:VEVENT\n\
            END:VCALENDAR\n",
    )
    .unwrap();

    assert_eq!(item.name, "VCALENDAR".to_owned());
    assert!(item.get_only("LOCATION").is_none());
    assert!(item.get_only("ORGANIZER").is_none());

    let event = &item.subcomponents[0];
    assert_eq!(event.name, "VEVENT".to_owned());
    assert!(event.get_only("ORGANIZER").is_some());
    assert_eq!(event.get_only("LOCATION").unwrap().raw_value, "Somewhere".to_owned());
}

#[test]
fn test_icalendar_multline() {
    // Adapted from a very popular provider's export
    let event = parse_component(
        "BEGIN:VEVENT\n\
        ATTENDEE;CUTYPE=INDIVIDUAL;ROLE=REQ-PARTICIPANT;PARTSTAT=ACCEPTED;CN=Jo\n \
        hn Doe;X-NUM-GUESTS=0:mailto:jd@cal.test\n\
        SUMMARY:Important meeting\n\
        END:VEVENT\n",
    )
    .unwrap();

    assert_eq!(event.name, "VEVENT".to_owned());
    assert_eq!(event.get_only("SUMMARY").unwrap().raw_value, "Important meeting".to_owned());
}

#[test]
fn test_icalendar_multline2() {
    // Adapted from a very popular provider's export
    let event = parse_component(
        "BEGIN:VCALENDAR\n\
        BEGIN:VEVENT\n\
        ATTENDEE;CUTYPE=INDIVIDUAL;ROLE=REQ-PARTICIPANT;PARTSTAT=ACCEPTED;CN=Jo\n \
        hn Doe;X-NUM-GUESTS=0:mailto:jd@cal.test\n\
        SUMMARY:Important meeting\n\
        END:VEVENT\n\
        END:VCALENDAR\n",
    )
    .unwrap();

    assert_eq!(event.name, "VCALENDAR".to_owned());
}

#[test]
fn test_escaping() {
    let item = parse_component(
        "BEGIN:VCALENDAR\n\
            ORGANIZER;CN=\"Cott:n Eye Joe\":mailto:joe@joe.com\n\
            END:VCALENDAR\n",
    )
    .unwrap();
    assert_eq!(item.name, "VCALENDAR".to_owned());
    assert_eq!(item.get_only("ORGANIZER").unwrap().raw_value, "mailto:joe@joe.com".to_owned());
}

#[test]
fn test_property_groups() {
    let item = parse_component(
        "BEGIN:VCARD\n\
            foo.EMAIL;TYPE=INTERNET:foo@example.com\n\
            foo.X-ACTUAL-TYPE:CUSTOM\n\
            END:VCARD\n",
    )
    .unwrap();
    assert_eq!(item.get_only("EMAIL").unwrap().prop_group, Some("foo".to_owned()));
}

// A property group scopes a property without changing its name, value or
// parameters.
#[test]
fn property_group_keeps_name_and_parameters() {
    let item = parse_component(
        "BEGIN:VCARD\n\
            foo.EMAIL;TYPE=INTERNET:foo@example.com\n\
            END:VCARD\n",
    )
    .unwrap();
    let p = item.get_only("EMAIL").unwrap();
    assert_eq!(p.prop_group, Some("foo".to_owned()));
    assert_eq!(p.name, "EMAIL".to_owned());
    assert_eq!(p.raw_value, "foo@example.com".to_owned());
    assert_eq!(p.params.get("TYPE"), Some(&"INTERNET".to_owned()));
}

// Two same-named properties keep their encounter order, and a single lookup
// refuses to pick between them.
#[test]
fn multi_property_preservation() {
    let item = parse_component(
        "BEGIN:VCARD\n\
        TEL:111\n\
        TEL:222\n\
        END:VCARD\n",
    )
    .unwrap();
    let tels = item.get_all("TEL");
    assert_eq!(tels.len(), 2);
    assert_eq!(tels[0].raw_value, "111".to_owned());
    assert_eq!(tels[1].raw_value, "222".to_owned());
    assert!(item.get_only("TEL").is_none());
}

// The vCard scenario of the specification, read through the generic store.
#[test]
fn literal_vcard_scenario() {
    let item = parse_component(
        "BEGIN:VCARD\n\
        VERSION:2.1\n\
        N:Mustermann;Erika\n\
        FN:Erika Mustermann\n\
        TEL;WORK;VOICE:(0221) 9999123\n\
        TEL;HOME;VOICE:(0221) 1234567\n\
        END:VCARD\n",
    )
    .unwrap();
    assert_eq!(item.name, "VCARD".to_owned());
    assert_eq!(item.get_only("FN").unwrap().raw_value, "Erika Mustermann".to_owned());
    let tels = item.get_all("TEL");
    assert_eq!(tels.len(), 2);
    assert_eq!(tels[0].raw_value, "(0221) 9999123".to_owned());
    assert_eq!(tels[1].raw_value, "(0221) 1234567".to_owned());
    assert!(item.get_only("TEL").is_none());
}

// A value split over a folded continuation line reads back as one piece,
// with nothing inserted.
#[test]
fn continuation_line_folding() {
    let item = parse_component(
        "BEGIN:VCARD\n\
        NOTE:one long va\r\n lue without breaks\n\
        END:VCARD\n",
    )
    .unwrap();
    assert_eq!(item.get_only("NOTE").unwrap().raw_value, "one long value without breaks".to_owned());
}

// Writing a parsed tree and parsing it again reproduces the tree: names,
// values, parameters, groups and subcomponent order all survive.
#[test]
fn parse_write_round_trip() {
    let text = "BEGIN:VCALENDAR\n\
        VERSION:2.0\n\
        foo.X-LABEL;TYPE=home:shelf\n\
        BEGIN:VEVENT\n\
        SUMMARY:Eine Kurzinfo\n\
        TEL:111\n\
        TEL:222\n\
        END:VEVENT\n\
        BEGIN:VEVENT\n\
        SUMMARY:Zweite\n\
        END:VEVENT\n\
        END:VCALENDAR\n";
    let first = parse_component(text).unwrap();
    let again = parse_component(&write_component(&first)).unwrap();
    assert_eq!(first, again);
    assert_eq!(write_component(&first), write_component(&again));
}

// The store mutators: push keeps duplicates, set replaces them, pop removes
// one from the back, remove drains the name.
#[test]
fn store_mutators() {
    let mut c = Component::new("VCARD");
    c.push(Property::new("TEL", "111"));
    c.push(Property::new("TEL", "222"));
    assert_eq!(c.get_all("TEL").len(), 2);

    let popped = c.pop("TEL").unwrap();
    assert_eq!(popped.raw_value, "222".to_owned());
    assert_eq!(c.get_all("TEL").len(), 1);
    assert!(c.pop("MISSING").is_none());

    c.set(Property::new("TEL", "333"));
    assert_eq!(c.get_all("TEL").len(), 1);
    assert_eq!(c.get_only("TEL").unwrap().raw_value, "333".to_owned());

    let removed = c.remove("TEL").unwrap();
    assert_eq!(removed.len(), 1);
    assert!(c.get_all("TEL").is_empty());
    assert!(c.remove("TEL").is_none());
}

// A quoted parameter value may hold colons, commas and semicolons; the
// closing quote is required.
#[test]
fn quoted_parameter_values() {
    let item = parse_component(
        "BEGIN:VCALENDAR\n\
        ORGANIZER;CN=\"Balder, Alice; Example: Inc.\":MAILTO:alice@example.com\n\
        END:VCALENDAR\n",
    )
    .unwrap();
    let p = item.get_only("ORGANIZER").unwrap();
    assert_eq!(p.params.get("CN"), Some(&"Balder, Alice; Example: Inc.".to_owned()));

    let broken = parse_component(
        "BEGIN:VCALENDAR\n\
        ORGANIZER;CN=\"no closing quote:mailto:joe@joe.com\n\
        END:VCALENDAR\n",
    );
    assert!(broken.is_err());
}

// Duplicate parameter names keep the last value.
#[test]
fn duplicate_parameter_names_last_wins() {
    let item = parse_component(
        "BEGIN:VCARD\n\
        TEL;TYPE=first;TYPE=second:111\n\
        END:VCARD\n",
    )
    .unwrap();
    let p = item.get_only("TEL").unwrap();
    assert_eq!(p.params.get("TYPE"), Some(&"second".to_owned()));
    assert_eq!(p.params.get("MISSING"), None);
}

// A parameter without `=` carries an empty value, as in `TEL;WORK:...`.
#[test]
fn parameter_without_value_reads_as_empty() {
    let item = parse_component("BEGIN:VCARD\nTEL;WORK:111\nEND:VCARD\n").unwrap();
    let p = item.get_only("TEL").unwrap();
    assert_eq!(p.params.get("WORK"), Some(&"".to_owned()));
}

// Serialization emits property names in code-point order, with CRLF endings.
#[test]
fn write_orders_properties_by_name() {
    let mut c = Component::new("VCARD");
    c.push(Property::new("TEL", "1"));
    c.push(Property::new("ADR", "x"));
    c.push(Property::new("FN", "n"));
    assert_eq!(write_component(&c), "BEGIN:VCARD\r\nADR:x\r\nFN:n\r\nTEL:1\r\nEND:VCARD\r\n");
}

// Property values are escaped on the way into `Property::new` and unescaped
// by `value_as_string`.
#[test]
fn property_new_escapes_and_reads_back() {
    let p = Property::new("NOTE", "semi;and,comma\nline");
    assert_eq!(p.raw_value, "semi\\;and\\,comma\\nline".to_owned());
    assert_eq!(p.value_as_string(), "semi;and,comma\nline".to_owned());
}

// `str::parse` goes through the same entry point as `parse_component`.
#[test]
fn component_from_str() {
    let c: Component = "BEGIN:VCARD\nFN:Erika\nEND:VCARD\n".parse().unwrap();
    assert_eq!(c.name, "VCARD".to_owned());
    assert!("FN:Erika\n".parse::<Component>().is_err());
}

// The error descriptions spec the failing paths name.
#[test]
fn error_descriptions_are_exact() {
    let e = match parse_component("BEGIN:VCARD\nEND:VCARD\nleftover") {
        Err(vobject::VObjectError::Parser(e)) => e,
        _ => panic!("expected a parse error"),
    };
    assert_eq!(e.into_string(), "Trailing data: `leftover`");

    let e = match parse_component("BEGIN:VCARD\n:novalue\nEND:VCARD\n") {
        Err(vobject::VObjectError::Parser(e)) => e,
        _ => panic!("expected a parse error"),
    };
    assert_eq!(e.into_string(), "No property name found.");

    let e = match parse_component("BEGIN:VCARD\nFN\nEND:VCARD\n") {
        Err(vobject::VObjectError::Parser(e)) => e,
        _ => panic!("expected a parse error"),
    };
    assert_eq!(e.into_string(), "Expected :, found \n");
}

// The parse/write round trip is lossy beyond formatting on one family of
// inputs: a quoted parameter value holding `;`, `,` or `:` is rewritten
// unquoted and no longer reads back as one value.
#[test]
fn quoted_parameter_round_trip_is_lossy() {
    let first = parse_component(
        "BEGIN:VCALENDAR\n\
        ORGANIZER;CN=\"a;b\":mailto:joe@joe.com\n\
        END:VCALENDAR\n",
    )
    .unwrap();
    assert_eq!(
        first.get_only("ORGANIZER").unwrap().params.get("CN"),
        Some(&"a;b".to_owned()),
    );
    let again = parse_component(&write_component(&first)).unwrap();
    // the quoted semicolon now splits the parameter in two
    assert_eq!(
        again.get_only("ORGANIZER").unwrap().params.get("CN"),
        Some(&"a".to_owned()),
    );
    assert_ne!(first, again);
}
