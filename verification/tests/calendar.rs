use vobject::icalendar::Categories;
use vobject::icalendar::Class;
use vobject::icalendar::Description;
use vobject::icalendar::Dtend;
use vobject::icalendar::Dtstamp;
use vobject::icalendar::Dtstart;
use vobject::icalendar::Location;
use vobject::icalendar::Rrule;
use vobject::icalendar::Transp;
use vobject::icalendar::Url;
use vobject::icalendar::Event;
use vobject::icalendar::Summary;
use vobject::icalendar::Uid;
use vobject::property::Params;
use vobject::ICalendar;
use vobject::VObjectError;

const TEST_ENTRY: &'static str = "BEGIN:VCALENDAR\n\
            VERSION:2.0\n\
            PRODID:http://www.example.com/calendarapplication/\n\
            METHOD:PUBLISH\n\
            BEGIN:VEVENT\n\
            UID:461092315540@example.com\n\
            ORGANIZER;CN=\"Alice Balder, Example Inc.\":MAILTO:alice@example.com\n\
            LOCATION:Somewhere\n\
            SUMMARY:Eine Kurzinfo\n\
            DESCRIPTION:Beschreibung des Termines\n\
            CLASS:PUBLIC\n\
            DTSTART:20060910T220000Z\n\
            DTEND:20060919T215900Z\n\
            DTSTAMP:20060812T125900Z\n\
            END:VEVENT\n\
            END:VCALENDAR\n";

const TEST_ENTRY_OC: &'static str = "BEGIN:VCALENDAR\n\
        VERSION:2.0\n\
        PRODID:ownCloud Calendar\n\
        CALSCALE:GREGORIAN\n\
        BEGIN:VEVENT\n\
        UID:ff411055a5\n\
        DTSTAMP:20160128T223013Z\n\
        CREATED:20160128T223013Z\n\
        LAST-MODIFIED:20160128T223013Z\n\
        SUMMARY:Amon Amarth - Jomsviking\n\
        DTSTART;VALUE=DATE:20160325\n\
        DTEND;VALUE=DATE:20160326\n\
        LOCATION:\n\
        DESCRIPTION:\n\
        CATEGORIES:\n\
        END:VEVENT\n\
        END:VCALENDAR\n\
        ";

#[test]
fn test_parse() {
    let cal = ICalendar::build(TEST_ENTRY);
    assert!(cal.is_ok(), "Not okay: {:?}\n in '{}'", cal, TEST_ENTRY);
}

#[test]
fn test_iter() {
    let ical = ICalendar::build(TEST_ENTRY).unwrap();
    assert_eq!(ical.events().count(), 1);
}

#[test]
fn test_icalendar_attributes() {
    let ical = ICalendar::build(TEST_ENTRY).unwrap();
    assert_eq!(ical.version().unwrap().raw(), "2.0");
    assert_eq!(ical.prodid().unwrap().raw(), "http://www.example.com/calendarapplication/");
}

#[test]
fn test_event_attributes() {
    let ical = ICalendar::build(TEST_ENTRY).unwrap();
    let mut events = ical.events();
    let ev = events.next().unwrap().unwrap();
    assert_eq!(ev.dtend().map(|e| e.raw().clone()), Some("20060919T215900Z".to_owned()));
    assert_eq!(ev.dtstart().map(|e| e.raw().clone()), Some("20060910T220000Z".to_owned()));
    assert_eq!(ev.dtstamp().map(|e| e.raw().clone()), Some("20060812T125900Z".to_owned()));
    assert_eq!(ev.uid().map(|e| e.raw().clone()), Some("461092315540@example.com".to_owned()));
    assert_eq!(
        ev.description().map(|e| e.raw().clone()),
        Some("Beschreibung des Termines".to_owned()),
    );
    assert_eq!(ev.summary().map(|e| e.raw().clone()), Some("Eine Kurzinfo".to_owned()));
    assert_eq!(ev.url(), None);
    assert_eq!(ev.location().map(|e| e.raw().clone()), Some("Somewhere".to_owned()));
    assert_eq!(ev.class().map(|e| e.raw().clone()), Some("PUBLIC".to_owned()));
    assert_eq!(ev.categories(), None);
    assert_eq!(ev.transp(), None);
    assert_eq!(ev.rrule(), None);
}

#[test]
fn test_event_attributes_oc() {
    let ical = ICalendar::build(TEST_ENTRY_OC).unwrap();
    assert_eq!(ical.version().unwrap().raw(), "2.0");
    assert_eq!(ical.prodid().unwrap().raw(), "ownCloud Calendar");
    let mut events = ical.events();
    let ev = events.next().unwrap().unwrap();
    assert_eq!(ev.dtend().map(|e| e.raw().clone()), Some("20160326".to_owned()));
    assert_eq!(ev.dtstart().map(|e| e.raw().clone()), Some("20160325".to_owned()));
    assert_eq!(ev.dtstamp().map(|e| e.raw().clone()), Some("20160128T223013Z".to_owned()));
    assert_eq!(ev.uid().map(|e| e.raw().clone()), Some("ff411055a5".to_owned()));
    assert_eq!(ev.description().map(|e| e.raw().clone()), Some("".to_owned()));
    assert_eq!(ev.summary().map(|e| e.raw().clone()), Some("Amon Amarth - Jomsviking".to_owned()));
    assert_eq!(ev.url(), None);
    assert_eq!(ev.location().map(|e| e.raw().clone()), Some("".to_owned()));
    assert_eq!(ev.class().map(|e| e.raw().clone()), None);
    assert_eq!(ev.categories().map(|e| e.raw().clone()), Some("".to_owned()));
    assert_eq!(ev.transp(), None);
    assert_eq!(ev.rrule(), None);
}

#[test]
fn test_build_event() {
    let mut ical = ICalendar::empty();
    let mut builder = Event::build();

    let desc = Description::new(String::from("test"), Params::new());
    builder.set_description(desc, None);

    let uid = Uid::new(String::from("testuid"), Params::new());
    builder.set_uid(uid, None);

    let summary = Summary::new(String::from("summary"), Params::new());
    builder.set_summary(summary, None);

    ical.add_event(builder);

    let mut events = ical.events();
    let ev = events.next().unwrap().unwrap();
    assert_eq!(ev.uid().map(|e| e.raw().clone()), Some("testuid".to_owned()));
    assert_eq!(ev.description().map(|e| e.raw().clone()), Some("test".to_owned()));
    assert_eq!(ev.summary().map(|e| e.raw().clone()), Some("summary".to_owned()));
}

#[test]
fn not_an_icalendar_is_refused() {
    let r = ICalendar::build("BEGIN:VCARD\nFN:Erika\nEND:VCARD\n");
    assert!(matches!(r, Err(VObjectError::NotAnICalendar(_))));
}

#[test]
fn non_event_subcomponents_come_out_as_errors() {
    let ical = ICalendar::build(
        "BEGIN:VCALENDAR\n\
        BEGIN:VTIMEZONE\n\
        TZID:Europe/Berlin\n\
        END:VTIMEZONE\n\
        END:VCALENDAR\n",
    )
    .unwrap();
    let mut events = ical.events();
    let odd = events.next().unwrap();
    assert!(odd.is_err());
    assert_eq!(odd.unwrap_err().name, "VTIMEZONE".to_owned());
    assert!(events.next().is_none());
}

#[test]
fn chainable_event_builders_append() {
    let mut ical = ICalendar::empty();
    let builder = Event::build()
        .with_summary(Summary::new("first".to_owned(), Params::new()), None)
        .with_summary(Summary::new("second".to_owned(), Params::new()), None)
        .with_uid(Uid::new("u1".to_owned(), Params::new()), None);
    ical.add_event(builder);
    let mut events = ical.events();
    let ev = events.next().unwrap().unwrap();
    // two SUMMARY lines were appended, so the single-value accessor refuses
    assert_eq!(ev.summary(), None);
    assert_eq!(ev.uid().map(|e| e.raw().clone()), Some("u1".to_owned()));
}

#[test]
fn chainable_event_builders_cover_every_field() {
    let mut ical = ICalendar::empty();
    let builder = Event::build()
        .with_dtend(Dtend::new("20060919T215900Z".to_owned(), Params::new()), None)
        .with_dtstart(Dtstart::new("20060910T220000Z".to_owned(), Params::new()), None)
        .with_dtstamp(Dtstamp::new("20060812T125900Z".to_owned(), Params::new()), None)
        .with_description(Description::new("d".to_owned(), Params::new()), None)
        .with_url(Url::new("http://example.com".to_owned(), Params::new()), None)
        .with_location(Location::new("Somewhere".to_owned(), Params::new()), None)
        .with_class(Class::new("PUBLIC".to_owned(), Params::new()), None)
        .with_categories(Categories::new("c".to_owned(), Params::new()), None)
        .with_transp(Transp::new("OPAQUE".to_owned(), Params::new()), None)
        .with_rrule(Rrule::new("FREQ=DAILY".to_owned(), Params::new()), None);
    ical.add_event(builder);
    let mut events = ical.events();
    let ev = events.next().unwrap().unwrap();
    assert_eq!(ev.dtend().map(|e| e.raw().clone()), Some("20060919T215900Z".to_owned()));
    assert_eq!(ev.dtstart().map(|e| e.raw().clone()), Some("20060910T220000Z".to_owned()));
    assert_eq!(ev.dtstamp().map(|e| e.raw().clone()), Some("20060812T125900Z".to_owned()));
    assert_eq!(ev.description().map(|e| e.raw().clone()), Some("d".to_owned()));
    assert_eq!(ev.url().map(|e| e.raw().clone()), Some("http://example.com".to_owned()));
    assert_eq!(ev.location().map(|e| e.raw().clone()), Some("Somewhere".to_owned()));
    assert_eq!(ev.class().map(|e| e.raw().clone()), Some("PUBLIC".to_owned()));
    assert_eq!(ev.categories().map(|e| e.raw().clone()), Some("c".to_owned()));
    assert_eq!(ev.transp().map(|e| e.raw().clone()), Some("OPAQUE".to_owned()));
    assert_eq!(ev.rrule().map(|e| e.raw().clone()), Some("FREQ=DAILY".to_owned()));
}
