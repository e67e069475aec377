//! An article and the dates it may carry.

use crate::blog_clusters::TagHandle;
use vstd::prelude::*;

verus! {

/// Whether `year` is a leap year of the Gregorian calendar.
pub open spec fn is_leap_year(year: int) -> bool {
    (year % 4 == 0 && year % 100 != 0) || year % 400 == 0
}

/// The number of days of `month` in `year`; 0 where `month` is no month.
pub open spec fn days_in_month(year: int, month: int) -> int {
    if month == 1 || month == 3 || month == 5 || month == 7 || month == 8 || month == 10 || month
        == 12 {
        31
    } else if month == 4 || month == 6 || month == 9 || month == 11 {
        30
    } else if month == 2 {
        if is_leap_year(year) {
            29
        } else {
            28
        }
    } else {
        0
    }
}

/// A calendar date that an article may carry: a year from 2000 to 2200, and a
/// day that exists in its month.
pub open spec fn is_valid_date(year: int, month: int, day: int) -> bool {
    &&& 2000 <= year <= 2200
    &&& 1 <= day <= days_in_month(year, month)
}

/// Whether the day `year`/`month`/`day` exists and lies in the years that an
/// article may have.
pub fn valid_date(year: i64, month: i64, day: i64) -> (ok: bool)
    ensures
        ok == is_valid_date(year as int, month as int, day as int),
{
    if year > 2200 || year < 2000 {
        return false;
    }
    let leap = ((year % 4 == 0) && (year % 100 != 0)) || (year % 400 == 0);
    let limit: i64 = if month == 1 || month == 3 || month == 5 || month == 7 || month == 8 || month
        == 10 || month == 12 {
        31
    } else if month == 4 || month == 6 || month == 9 || month == 11 {
        30
    } else if month == 2 {
        if leap {
            29
        } else {
            28
        }
    } else {
        0
    };
    1 <= day && day <= limit
}

/// February has a 29th day in the leap years, and in no others.
pub proof fn lemma_february_29(year: int)
    requires
        2000 <= year <= 2200,
    ensures
        is_valid_date(year, 2, 29) <==> is_leap_year(year),
{
}

/// No month has a day 0, no year a month 0, and April has no 31st day.
pub proof fn lemma_dates_that_are_none(year: int)
    ensures
        !is_valid_date(year, 4, 31),
        !is_valid_date(year, 0, 1),
        !is_valid_date(year, 1, 0),
{
}

/// An article: its date, its title, the handles of its tags, and its two
/// texts. Nothing changes it once it is made.
#[derive(Debug, Clone)]
pub struct Blog {
    pub year: u16,
    pub month: u16,
    pub day: u16,
    pub title: String,
    pub tags: Vec<TagHandle>,
    pub preview: String,
    pub content: String,
}

/// What a `Blog` stands for.
pub struct Article {
    pub year: int,
    pub month: int,
    pub day: int,
    pub title: Seq<char>,
    pub tags: Seq<TagHandle>,
    pub preview: Seq<char>,
    pub content: Seq<char>,
}

impl View for Blog {
    type V = Article;

    open spec fn view(&self) -> Article {
        Article {
            year: self.year as int,
            month: self.month as int,
            day: self.day as int,
            title: self.title@,
            tags: self.tags@,
            preview: self.preview@,
            content: self.content@,
        }
    }
}

impl Blog {
    /// An article is made with a date that exists.
    pub fn new(
        year: i64,
        month: i64,
        day: i64,
        title: &str,
        tags: &Vec<TagHandle>,
        preview: &str,
        content: &str,
    ) -> (blog: Self)
        requires
            is_valid_date(year as int, month as int, day as int),
        ensures
            blog@ == (Article {
                year: year as int,
                month: month as int,
                day: day as int,
                title: title@,
                tags: tags@,
                preview: preview@,
                content: content@,
            }),
    {
        Blog {
            year: year as u16,
            month: month as u16,
            day: day as u16,
            title: title.to_owned(),
            tags: tags.clone(),
            preview: preview.to_owned(),
            content: content.to_owned(),
        }
    }
}

} // verus!
