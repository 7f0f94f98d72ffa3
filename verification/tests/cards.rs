use vobject::property::Params;
use vobject::write_component;
use vobject::Vcard;
use vobject::VObjectError;

#[test]
fn vcard_test_vcard_basic() {
    let item = Vcard::build(
        "BEGIN:VCARD\n\
        VERSION:2.1\n\
        N:Mustermann;Erika\n\
        FN:Erika Mustermann\n\
        ORG:Wikipedia\n\
        TITLE:Oberleutnant\n\
        PHOTO;JPEG:http://commons.wikimedia.org/wiki/File:Erika_Mustermann_2010.jpg\n\
        TEL;WORK;VOICE:(0221) 9999123\n\n\n\
        TEL;HOME;VOICE:(0221) 1234567\n\
        ADR;HOME:;;Heidestrasse 17;Koeln;;51147;Deutschland\n\
        EMAIL;PREF;INTERNET:erika@mustermann.de\n\
        REV:20140301T221110Z\n\
        END:VCARD\n\r\n\n",
    )
    .unwrap();

    assert_eq!(item.adr()[0].raw(), ";;Heidestrasse 17;Koeln;;51147;Deutschland");
    assert_eq!(item.fullname()[0].raw(), "Erika Mustermann");
    assert_eq!(item.name().unwrap().plain(), "Mustermann;Erika");
    assert_eq!(item.name().unwrap().surname().unwrap(), "Mustermann");
    assert_eq!(item.name().unwrap().given_name().unwrap(), "Erika");
    assert_eq!(item.org()[0].raw(), "Wikipedia");
    assert_eq!(item.title()[0].raw(), "Oberleutnant");
}

#[test]
fn test_vcard_builder() {
    let mut tel_work = Params::new();
    tel_work.insert("TYPE".to_owned(), "WORK".to_owned());
    let mut tel_home = Params::new();
    tel_home.insert("TYPE".to_owned(), "HOME".to_owned());
    let mut adr_home = Params::new();
    adr_home.insert("TYPE".to_owned(), "HOME".to_owned());

    let build = Vcard::default()
        .with_name(
            Params::new(),
            None,
            Some("Mustermann".into()),
            None,
            Some("Erika".into()),
            None,
        )
        .with_fullname("Erika Mustermann".into())
        .with_org(vec!["Wikipedia".into()])
        .with_title("Oberleutnant".into())
        .with_tel(tel_work, "(0221) 9999123".into())
        .with_tel(tel_home, "(0221) 1234567".into())
        .with_adr(
            adr_home,
            None,
            None,
            Some("Heidestrasse 17".into()),
            Some("Koeln".into()),
            None,
            Some("51147".into()),
            Some("Deutschland".into()),
        )
        .with_email("erika@mustermann.de".into())
        .with_rev("20140301T221110Z".into());

    let build_string = write_component(build.component());

    let expected = "BEGIN:VCARD\r\n\
        ADR;TYPE=HOME:;;Heidestrasse 17;Koeln;;51147;Deutschland\r\n\
        EMAIL:erika@mustermann.de\r\n\
        FN:Erika Mustermann\r\n\
        N:;Mustermann;;Erika;\r\n\
        ORG:Wikipedia\r\n\
        REV:20140301T221110Z\r\n\
        TEL;TYPE=WORK:(0221) 9999123\r\n\
        TEL;TYPE=HOME:(0221) 1234567\r\n\
        TITLE:Oberleutnant\r\n\
        END:VCARD\r\n";

    assert_eq!(expected, build_string);
}

#[test]
fn not_a_vcard_is_refused() {
    let r = Vcard::build("BEGIN:VCALENDAR\nVERSION:2.0\nEND:VCALENDAR\n");
    assert!(matches!(r, Err(VObjectError::NotAVCard)));
}

#[test]
fn vcard_string_accessors() {
    let item = Vcard::build(
        "BEGIN:VCARD\n\
        VERSION:3.0\n\
        UID:urn:uuid:example\n\
        REV:20140301T221110Z\n\
        N:Mustermann;Erika\n\
        FN:Erika Mustermann\n\
        PRODID:-//Example//Tool//EN\n\
        TEL:111\n\
        TEL:222\n\
        EMAIL:erika@mustermann.de\n\
        NOTE:semi\\;colon\n\
        END:VCARD\n",
    )
    .unwrap();
    assert_eq!(item.unescaped_version(), Some("3.0".to_owned()));
    assert_eq!(item.unescaped_uid(), Some("urn:uuid:example".to_owned()));
    assert_eq!(item.unescaped_rev(), Some("20140301T221110Z".to_owned()));
    assert_eq!(item.unescaped_name(), Some("Mustermann;Erika".to_owned()));
    assert_eq!(item.unescaped_fullname(), Some("Erika Mustermann".to_owned()));
    assert_eq!(item.unescaped_prodid(), Some("-//Example//Tool//EN".to_owned()));
    assert_eq!(item.unescaped_tels(), vec!["111".to_owned(), "222".to_owned()]);
    assert_eq!(item.unescaped_emails(), vec!["erika@mustermann.de".to_owned()]);
    // two TELs: the single-value accessor refuses to pick one
    assert_eq!(item.unescaped_tels().len(), 2);
}

#[test]
fn vcard_new_carries_a_version() {
    let card = Vcard::new();
    assert_eq!(card.unescaped_version(), Some("3.0".to_owned()));
    let card21 = Vcard::new_with_version("2.1");
    assert_eq!(card21.unescaped_version(), Some("2.1".to_owned()));
}

#[test]
fn set_fullname_replaces_and_push_mail_appends() {
    let mut card = Vcard::new();
    card.set_fullname("Erika Mustermann".to_owned());
    assert_eq!(card.unescaped_fullname(), Some("Erika Mustermann".to_owned()));
    card.set_fullname("Max Mustermann".to_owned());
    assert_eq!(card.unescaped_fullname(), Some("Max Mustermann".to_owned()));
    card.push_mail("a@example.com".to_owned());
    card.push_mail("b@example.com".to_owned());
    assert_eq!(card.unescaped_emails(), vec!["a@example.com".to_owned(), "b@example.com".to_owned()]);
}

#[test]
fn name_splits_its_fields() {
    let item = Vcard::build(
        "BEGIN:VCARD\n\
        N:Mustermann;Erika;M.;Dr.;Jr.\n\
        END:VCARD\n",
    )
    .unwrap();
    let name = item.name().unwrap();
    assert_eq!(name.surname().unwrap(), "Mustermann");
    assert_eq!(name.family_name().unwrap(), "Mustermann");
    assert_eq!(name.given_name().unwrap(), "Erika");
    assert_eq!(name.additional_names().unwrap(), "M.");
    assert_eq!(name.honorific_prefixes().unwrap(), "Dr.");
    assert_eq!(name.honorific_suffixes().unwrap(), "Jr.");

    let short = Vcard::build("BEGIN:VCARD\nN:OnlySurname\nEND:VCARD\n").unwrap();
    let short_name = short.name().unwrap();
    assert_eq!(short_name.surname().unwrap(), "OnlySurname");
    assert_eq!(short_name.given_name(), None);
}

#[test]
fn typed_getters_cover_every_field() {
    let item = Vcard::build(
        "BEGIN:VCARD\n\
        VERSION:4.0\n\
        UID:urn:uuid:x\n\
        REV:20140301T221110Z\n\
        ANNIVERSARY:20140101\n\
        BDAY:19640823\n\
        GENDER:F\n\
        PRIOD:-//Example//EN\n\
        CLIENTPIDMAP:1;urn:uuid:y\n\
        CATEGORIES:swimmer\n\
        EMAIL:erika@mustermann.de\n\
        GEO:geo:50.9,6.9\n\
        IMPP:xmpp:erika@example.com\n\
        KEY:http://example.com/key.pgp\n\
        LANG:de\n\
        LOGO:http://example.com/logo.png\n\
        MEMBER:urn:uuid:z\n\
        NICKNAME:Rike\n\
        NOTE:a note\n\
        PHOTO:http://example.com/p.jpg\n\
        RELATED:urn:uuid:w\n\
        ROLE:Projektleiterin\n\
        SOUND:http://example.com/s.ogg\n\
        TEL:111\n\
        TZ:+0100\n\
        URL:http://example.com\n\
        END:VCARD\n",
    )
    .unwrap();
    assert_eq!(item.version().unwrap().raw(), "4.0");
    assert_eq!(item.uid().unwrap().raw(), "urn:uuid:x");
    assert_eq!(item.rev().unwrap().raw(), "20140301T221110Z");
    assert_eq!(item.anniversary().unwrap().raw(), "20140101");
    assert_eq!(item.bday().unwrap().raw(), "19640823");
    assert_eq!(item.gender().unwrap().raw(), "F");
    assert_eq!(item.proid().unwrap().raw(), "-//Example//EN");
    assert_eq!(item.clientpidmap().unwrap().raw(), "1;urn:uuid:y");
    assert_eq!(item.categories()[0].raw(), "swimmer");
    assert_eq!(item.email()[0].raw(), "erika@mustermann.de");
    assert_eq!(item.geo()[0].raw(), "geo:50.9,6.9");
    assert_eq!(item.impp()[0].raw(), "xmpp:erika@example.com");
    assert_eq!(item.key()[0].raw(), "http://example.com/key.pgp");
    assert_eq!(item.lang()[0].raw(), "de");
    assert_eq!(item.logo()[0].raw(), "http://example.com/logo.png");
    assert_eq!(item.member()[0].raw(), "urn:uuid:z");
    assert_eq!(item.nickname()[0].raw(), "Rike");
    assert_eq!(item.note()[0].raw(), "a note");
    assert_eq!(item.photo()[0].raw(), "http://example.com/p.jpg");
    assert_eq!(item.related()[0].raw(), "urn:uuid:w");
    assert_eq!(item.role()[0].raw(), "Projektleiterin");
    assert_eq!(item.sound()[0].raw(), "http://example.com/s.ogg");
    assert_eq!(item.tel()[0].raw(), "111");
    assert_eq!(item.tz()[0].raw(), "+0100");
    assert_eq!(item.url()[0].raw(), "http://example.com");
}

#[test]
fn chainable_builders_cover_every_field() {
    let mut with_type = Params::new();
    with_type.insert("TYPE".to_owned(), "home".to_owned());
    let build = Vcard::default()
        .with_anniversary("20140101".into())
        .with_bday(Params::new(), "19640823".into())
        .with_categories(vec!["swimmer".into(), "biker".into()])
        .with_clientpidmap("1;urn:uuid:y".into())
        .with_gender(Params::new(), "F".into())
        .with_geo("geo:50.9,6.9".into())
        .with_impp("xmpp:erika@example.com".into())
        .with_key("http://example.com/key.pgp".into())
        .with_lang("de".into())
        .with_logo("http://example.com/logo.png".into())
        .with_member("urn:uuid:z".into())
        .with_nickname(with_type, "Rike".into())
        .with_note("a note".into())
        .with_photo(Params::new(), "http://example.com/p.jpg".into())
        .with_proid("-//Example//EN".into())
        .with_related("urn:uuid:w".into())
        .with_role("Projektleiterin".into())
        .with_sound("http://example.com/s.ogg".into())
        .with_tz("+0100".into())
        .with_uid("urn:uuid:x".into())
        .with_url("http://example.com".into())
        .with_version("4.0".into());
    let text = write_component(build.component());
    assert!(text.contains("ANNIVERSARY:20140101\r\n"));
    assert!(text.contains("BDAY:19640823\r\n"));
    assert!(text.contains("CATEGORIES:swimmer;biker\r\n"));
    assert!(text.contains("CLIENTPIDMAP:1;urn:uuid:y\r\n"));
    assert!(text.contains("GENDER:F\r\n"));
    assert!(text.contains("NICKNAME;TYPE=home:Rike\r\n"));
    // the builder writes PRODID, while the typed getter reads PRIOD, as the
    // accessor table has it
    assert!(text.contains("PRODID:-//Example//EN\r\n"));
    assert!(text.contains("ROLE:Projektleiterin\r\n"));
    assert!(text.contains("VERSION:4.0\r\n"));
    assert!(text.contains("UID:urn:uuid:x\r\n"));
}
