use chrono::Datelike;
use vstd::prelude::*;

verus! {

/// A calendar date, as a backup's file name gives it.
#[derive(Clone, Copy, Debug, PartialEq, Eq, Structural)]
pub struct BackupDate {
    pub year: i32,
    pub month: u32,
    pub day: u32,
}

/// The date that chrono reads from `s` in the format `%Y-%m-%d`, if `s` is one.
pub uninterp spec fn parsed_ymd(s: Seq<char>) -> Option<(i32, u32, u32)>;

/// Reads a date written `YYYY-MM-DD` with chrono's `NaiveDate::parse_from_str` and
/// gives its year, month and day. The contract names the result and states the ranges
/// that chrono documents for a month (1 to 12) and a day of month (1 to 31).
#[verifier::external_body]
fn parse_ymd(s: &str) -> (r: Option<(i32, u32, u32)>)
    ensures
        r == parsed_ymd(s@),
        r matches Some((_, m, d)) ==> 1 <= m <= 12 && 1 <= d <= 31,
{
    match chrono::NaiveDate::parse_from_str(s, "%Y-%m-%d") {
        Ok(date) => Some((date.year(), date.month(), date.day())),
        Err(_) => None,
    }
}

/// `a` comes after `b` in the calendar.
pub open spec fn date_after(a: BackupDate, b: BackupDate) -> bool {
    a.year > b.year || (a.year == b.year && (a.month > b.month || (a.month == b.month && a.day
        > b.day)))
}

/// The name without its ".zip" ending, if it has one.
pub open spec fn strip_zip(s: Seq<char>) -> Option<Seq<char>> {
    if s.len() >= 4 && s.subrange(s.len() - 4, s.len() as int) == seq!['.', 'z', 'i', 'p'] {
        Some(s.subrange(0, s.len() - 4))
    } else {
        None
    }
}

/// The date of a backup named `name` (`YYYY-MM-DD.zip`), if it is one.
pub open spec fn backup_date_of(name: Seq<char>) -> Option<BackupDate> {
    match strip_zip(name) {
        Some(stem) => match parsed_ymd(stem) {
            Some((y, m, d)) => Some(BackupDate { year: y, month: m, day: d }),
            None => None,
        },
        None => None,
    }
}

/// The latest date among the backups named in `names`.
pub open spec fn latest_backup(names: Seq<Seq<char>>) -> Option<BackupDate>
    decreases names.len(),
{
    if names.len() == 0 {
        None
    } else {
        let l = latest_backup(names.drop_last());
        match backup_date_of(names.last()) {
            Some(d) => if l is None || date_after(d, l.unwrap()) {
                Some(d)
            } else {
                l
            },
            None => l,
        }
    }
}

/// The name without its ".zip" ending, if it has one.
pub fn strip_zip_suffix(name: &str) -> (r: Option<String>)
    ensures
        match r {
            Some(s) => strip_zip(name@) == Some(s@),
            None => strip_zip(name@) is None,
        },
{
    let n = name.unicode_len();
    if n >= 4 && name.get_char(n - 4) == '.' && name.get_char(n - 3) == 'z' && name.get_char(n - 2)
        == 'i' && name.get_char(n - 1) == 'p' {
        assert(name@.subrange(n - 4, n as int) =~= seq!['.', 'z', 'i', 'p']);
        let stem = name.substring_char(0, n - 4);
        Some(stem.to_string())
    } else {
        proof {
            if n >= 4 {
                let t = name@.subrange(n - 4, n as int);
                if t == seq!['.', 'z', 'i', 'p'] {
                    assert(t[0] == name@[n - 4]);
                    assert(t[1] == name@[n - 3]);
                    assert(t[2] == name@[n - 2]);
                    assert(t[3] == name@[n - 1]);
                }
            }
        }
        None
    }
}

/// The date of a backup named `name` (`YYYY-MM-DD.zip`), if it is one.
pub fn backup_date(name: &str) -> (r: Option<BackupDate>)
    ensures
        r == backup_date_of(name@),
{
    match strip_zip_suffix(name) {
        Some(stem) => match parse_ymd(stem.as_str()) {
            Some((y, m, d)) => Some(BackupDate { year: y, month: m, day: d }),
            None => None,
        },
        None => None,
    }
}

/// The latest date among the backups of the backup folder, given the names of its
/// entries (backups are named `YYYY-MM-DD.zip`; other entries are ignored).
pub fn latest_backup_date(names: &Vec<String>) -> (r: Option<BackupDate>)
    ensures
        r == latest_backup(crate::order::texts(names@)),
{
    let ghost t = crate::order::texts(names@);
    let mut latest: Option<BackupDate> = None;
    for i in 0..names.len()
        invariant
            t == crate::order::texts(names@),
            t.len() == names@.len(),
            latest == latest_backup(t.take(i as int)),
    {
        assert(t.take(i + 1).drop_last() =~= t.take(i as int));
        assert(t.take(i + 1).last() == names@[i as int]@);
        match backup_date(names[i].as_str()) {
            Some(date) => {
                let later = match latest {
                    None => true,
                    Some(d) => date.year > d.year || (date.year == d.year && (date.month > d.month
                        || (date.month == d.month && date.day > d.day))),
                };
                if later {
                    latest = Some(date);
                }
            },
            None => {},
        }
    }
    assert(t.take(names.len() as int) =~= t);
    latest
}

/// A backup is due today when there is none yet, or the latest is from another day.
pub fn should_backup_today(last_save: Option<BackupDate>, today: BackupDate) -> (r: bool)
    ensures
        r == match last_save {
            Some(last) => last != today,
            None => true,
        },
{
    match last_save {
        Some(last) => last != today,
        None => true,
    }
}

/// The latest backup date is one of the backups' dates, and no backup is dated after it.
pub proof fn law_latest_backup_is_latest(names: Seq<Seq<char>>)
    ensures
        match latest_backup(names) {
            Some(l) => {
                &&& exists|i: int| 0 <= i < names.len() && backup_date_of(names[i]) == Some(l)
                &&& forall|i: int|
                    0 <= i < names.len() ==> match #[trigger] backup_date_of(names[i]) {
                        Some(d) => !date_after(d, l),
                        None => true,
                    }
            },
            None => forall|i: int| 0 <= i < names.len() ==> #[trigger] backup_date_of(names[i]) is None,
        },
    decreases names.len(),
{
    if names.len() > 0 {
        let t = names.drop_last();
        law_latest_backup_is_latest(t);
        assert forall|i: int| 0 <= i < t.len() implies #[trigger] t[i] == names[i] by {}
        let last = names.len() - 1;
        assert(names[last] == names.last());
        let lt = latest_backup(t);
        let l = latest_backup(names);
        if l is Some {
            let lv = l.unwrap();
            assert(exists|i: int| 0 <= i < names.len() && backup_date_of(names[i]) == Some(lv)) by {
                if backup_date_of(names.last()) == Some(lv) {
                    assert(backup_date_of(names[last]) == Some(lv));
                } else {
                    let i = choose|i: int| 0 <= i < t.len() && backup_date_of(t[i]) == Some(lv);
                    assert(backup_date_of(names[i]) == Some(lv));
                }
            }
            assert forall|i: int| 0 <= i < names.len() implies match #[trigger] backup_date_of(names[i]) {
                Some(e) => !date_after(e, lv),
                None => true,
            } by {
                if i < t.len() {
                    assert(t[i] == names[i]);
                }
            }
        } else {
            assert forall|i: int| 0 <= i < names.len() implies #[trigger] backup_date_of(names[i]) is None by {
                if i < t.len() {
                    assert(t[i] == names[i]);
                }
            }
        }
    }
}

} // verus!
