use erdueltools::calendar::civil_from_days;
use erdueltools::library::{generated_identity, utc_parts};

#[test]
fn known_dates() {
    assert_eq!(civil_from_days(0), (1970, 1, 1));
    assert_eq!(civil_from_days(-1), (1969, 12, 31));
    assert_eq!(civil_from_days(59), (1970, 3, 1));
    assert_eq!(civil_from_days(11_016), (2000, 2, 29));
    assert_eq!(civil_from_days(11_017), (2000, 3, 1));
    assert_eq!(civil_from_days(19_782), (2024, 2, 29));
    assert_eq!(civil_from_days(-719_468), (0, 3, 1));
    assert_eq!(civil_from_days(-25_509), (1900, 2, 28));
    assert_eq!(civil_from_days(-25_508), (1900, 3, 1));
}

#[test]
fn days_follow_each_other() {
    let (mut year, mut month, mut day) = civil_from_days(-200_000);
    for number in -199_999..200_000i64 {
        let leap = year % 4 == 0 && (year % 100 != 0 || year % 400 == 0);
        let length = match month {
            2 => {
                if leap {
                    29
                } else {
                    28
                }
            }
            4 | 6 | 9 | 11 => 30,
            _ => 31,
        };
        if day < length {
            day += 1;
        } else if month < 12 {
            month += 1;
            day = 1;
        } else {
            year += 1;
            month = 1;
            day = 1;
        }
        assert_eq!(civil_from_days(number), (year, month, day));
    }
}

#[test]
fn extreme_days_have_dates() {
    let (year, month, day) = civil_from_days(i64::MIN);
    assert!(year < 0 && (1..=12).contains(&month) && (1..=31).contains(&day));
    let (year, month, day) = civil_from_days(i64::MAX - 719_468);
    assert!(year > 0 && (1..=12).contains(&month) && (1..=31).contains(&day));
}

#[test]
fn moments_have_a_time_of_day() {
    assert_eq!(utc_parts(0), (1970, 1, 1, 0, 0, 0));
    assert_eq!(utc_parts(1_709_208_000 + 3_599), (2024, 2, 29, 12, 59, 59));
    assert_eq!(utc_parts(951_827_696), (2000, 2, 29, 12, 34, 56));
}

#[test]
fn identities_name_the_moment() {
    let (id, name) = generated_identity("BD", 0x1234_5678_9abc, 951_827_696, 255, 16);
    assert_eq!(id, "build-123456789abc-ff-10");
    assert_eq!(name, "BD 2000-02-29 12:34:56 UTC");
    let (id, name) = generated_identity("构筑", 0, 5, 0, 0);
    assert_eq!(id, "build-0-0-0");
    assert_eq!(name, "构筑 1970-01-01 00:00:05 UTC");
}
