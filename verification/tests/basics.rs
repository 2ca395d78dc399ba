use chrono::{Datelike, NaiveDate};
use schedule::date::{Date, UtcMinute};
use schedule::identity::{
    id_text, invite_with, new_id, new_invite, parse_id, sha256_hex, token_hash, token_matches,
    valid_bootstrap_token,
};
use schedule::text::{
    concat3, contains, decimal_text, eq_ignore_ascii_case, insert_sorted, is_white_space, join,
    parse_unsigned, same_text, signed_decimal_text, split, split_once, split_whitespace, starts_with,
    strip_prefix, text_before, to_ascii_lowercase, trim, trim_start_matches, zero_pad,
};

#[test]
fn white_space_is_that_of_unicode() {
    for code in 0..=0x10ffffu32 {
        if let Some(c) = char::from_u32(code) {
            assert_eq!(is_white_space(c), c.is_whitespace());
        }
    }
}

#[test]
fn text_functions_agree_with_the_standard_library() {
    for text in ["", " ", " a ", "a b\u{a0}c", "\u{3000}дот\n", "a/b//c/", "@x@y", "+7", "Ы q"] {
        assert_eq!(trim(text), text.trim());
        assert_eq!(split(text, '/'), text.split('/').collect::<Vec<_>>());
        assert_eq!(
            split_once(text, '@'),
            text.split_once('@').map(|(a, b)| (a.to_owned(), b.to_owned()))
        );
        assert_eq!(
            split_whitespace(text),
            text.split_whitespace().collect::<Vec<_>>()
        );
        assert_eq!(to_ascii_lowercase(text), text.to_ascii_lowercase());
        assert_eq!(parse_unsigned(text, 255), text.parse::<u8>().ok().map(u32::from));
    }
    for number in ["0", "255", "256", "007", "+1", "-1", "1a", "", "+"] {
        assert_eq!(parse_unsigned(number, 255), number.parse::<u8>().ok().map(u32::from));
    }
    assert!(starts_with("/start x", "/start"));
    assert!(!starts_with("/st", "/start"));
    assert_eq!(strip_prefix("adm_1", "adm_").as_deref(), Some("1"));
    assert_eq!(strip_prefix("adm", "adm_"), None);
    assert_eq!(trim_start_matches("ababc", "ab"), "ababc".trim_start_matches("ab"));
    assert_eq!(trim_start_matches("c", "ab"), "c");
    assert!(contains("пр.+лек.", "лек"));
    assert!(contains("x", ""));
    assert!(!contains("", "x"));
    assert!(eq_ignore_ascii_case("ScheduleBot", "schedulebot"));
    assert!(!eq_ignore_ascii_case("Ё", "ё"));
    assert!(same_text("ё", "ё"));
    for (a, b) in [("a", "b"), ("", "a"), ("ab", "a"), ("ИС11В", "КТО11В"), ("я", "\u{10000}")] {
        assert_eq!(text_before(a, b), a < b);
        assert_eq!(text_before(b, a), b < a);
    }
}

#[test]
fn numbers_are_written_in_decimal() {
    for number in [0u64, 7, 10, 99, 1_000, u64::MAX] {
        assert_eq!(decimal_text(number), number.to_string());
    }
    for number in [0i64, -1, 42, i64::MIN, i64::MAX] {
        assert_eq!(signed_decimal_text(number), number.to_string());
    }
    assert_eq!(zero_pad("7", 2), "07");
    assert_eq!(zero_pad("123", 2), "123");
    assert_eq!(concat3("a", "", "b"), "ab");
    assert_eq!(join(&vec!["a".to_owned(), "b".to_owned()], ", "), "a, b");
    assert_eq!(join(&Vec::new(), ", "), "");
}

#[test]
fn sorted_lists_hold_nothing_twice() {
    let mut list = Vec::new();
    for item in ["КТО11В", "ИС11В", "ИС31В", "ИС11В"] {
        insert_sorted(&mut list, item);
    }
    assert_eq!(list, vec!["ИС11В", "ИС31В", "КТО11В"]);
}

#[test]
fn dates_are_those_of_the_calendar() {
    assert!(Date::from_ymd_opt(2024, 2, 29).is_some());
    assert!(Date::from_ymd_opt(2023, 2, 29).is_none());
    assert!(Date::from_ymd_opt(1900, 2, 29).is_none());
    assert!(Date::from_ymd_opt(2000, 2, 29).is_some());
    assert!(Date::from_ymd_opt(-4, 2, 29).is_some());
    assert!(Date::from_ymd_opt(-100, 2, 29).is_none());
    assert!(Date::from_ymd_opt(2024, 13, 1).is_none());
    assert!(Date::from_ymd_opt(2024, 0, 1).is_none());
    assert!(Date::from_ymd_opt(2024, 1, 0).is_none());
    assert!(Date::from_ymd_opt(262_143, 1, 1).is_none());
    assert!(Date::from_ymd_opt(262_142, 12, 31).is_some());
    assert!(Date::from_ymd_opt(-262_143, 1, 1).is_some());
}

#[test]
fn dates_agree_with_chrono() {
    let mut day = NaiveDate::from_ymd_opt(1999, 12, 1).unwrap();
    for _ in 0..900 {
        let date = Date::from_ymd_opt(day.year(), day.month(), day.day()).unwrap();
        assert_eq!(date.weekday(), day.weekday().num_days_from_monday());
        assert_eq!(date.dotted(), day.format("%d.%m.%Y").to_string());
        assert_eq!(date.dotted_short(), day.format("%d.%m").to_string());
        assert_eq!(date.hyphenated(), day.to_string());
        let next = date.checked_add_days(1).unwrap();
        day = day.succ_opt().unwrap();
        assert_eq!((next.year(), next.month(), next.day()), (day.year(), day.month(), day.day()));
        assert!(date.is_before(&next) && !next.is_before(&date) && !date.same(&next));
    }
    let last = Date::from_ymd_opt(262_142, 12, 31).unwrap();
    assert!(last.checked_add_days(1).is_none());
    for days in [i64::MIN, -200_000_000_000, -200_000_000, 200_000_000, i64::MAX] {
        assert!(last.checked_add_days(days).is_none());
    }
    let first = Date::from_ymd_opt(-262_143, 1, 1).unwrap();
    assert!(first.checked_add_days(-1).is_none());
    assert_eq!(
        Date::from_ymd_opt(2026, 9, 28).unwrap().checked_add_days(-10_000),
        Date::from_ymd_opt(1999, 5, 13)
    );
    assert_eq!(last.hyphenated(), "+262142-12-31");
    assert_eq!(Date::from_ymd_opt(-1, 1, 2).unwrap().dotted(), "02.01.-0001");
}

#[test]
fn moments_are_those_of_utc() {
    let moment = UtcMinute::from_timestamp(1_700_000_000).unwrap();
    assert_eq!(moment.date, Date::from_ymd_opt(2023, 11, 14).unwrap());
    assert_eq!(moment.clock_text(), "22:13");
    let before = UtcMinute::from_timestamp(-1).unwrap();
    assert_eq!(before.date, Date::from_ymd_opt(1969, 12, 31).unwrap());
    assert_eq!(before.clock_text(), "23:59");
    assert!(UtcMinute::from_timestamp(i64::MAX).is_none());
}

#[test]
fn digests_are_those_of_sha256() {
    assert_eq!(
        sha256_hex(b""),
        "e3b0c44298fc1c149afbf4c8996fb92427ae41e4649b934ca495991b7852b855"
    );
    assert_eq!(
        token_hash("abc"),
        "ba7816bf8f01cfea414140de5dae2223b00361a396177a9cb410ff61f20015ad"
    );
}

#[test]
fn identifiers_are_read_back() {
    let id = 0x550e8400_e29b_41d4_a716_446655440000u128;
    assert_eq!(id_text(id), "550e8400-e29b-41d4-a716-446655440000");
    assert_eq!(parse_id("550e8400-e29b-41d4-a716-446655440000"), Some(id));
    assert_eq!(parse_id("550E8400E29B41D4A716446655440000"), Some(id));
    assert_eq!(parse_id("550e8400"), None);
    for id in [0, 1, u128::MAX, new_id()] {
        assert_eq!(parse_id(&id_text(id)), Some(id));
    }
    let fresh = new_id();
    assert_ne!(fresh, new_id());
    assert_eq!(id_text(fresh).as_bytes()[14], b'4');
}

#[test]
fn invitations_store_the_digest_of_their_token() {
    let invite = invite_with(1);
    assert_eq!(invite.token, "00000000-0000-0000-0000-000000000001");
    assert_eq!(invite.token_sha256, sha256_hex(invite.token.as_bytes()));
    let fresh = new_invite();
    assert_ne!(fresh.token, new_invite().token);
    assert_eq!(fresh.token_sha256, token_hash(&fresh.token));
}

#[test]
fn secrets_are_checked() {
    assert!(token_matches("секрет", "секрет"));
    assert!(!token_matches("секрет", "секреТ"));
    assert!(!token_matches("", "x"));
    assert!(valid_bootstrap_token("abcdefghijklmnopqrstuvwx"));
    assert!(valid_bootstrap_token(&"Z9_-".repeat(13)));
    assert!(!valid_bootstrap_token("abcdefghijklmnopqrstuvw"));
    assert!(!valid_bootstrap_token(&"a".repeat(55)));
    assert!(!valid_bootstrap_token("abcdefghijklmnopqrstuvw!"));
    assert!(!valid_bootstrap_token(&"ы".repeat(24)));
}
