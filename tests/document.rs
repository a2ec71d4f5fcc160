use blog::blog::{lines, Blog, BlogError};
use blog::date::Date;

#[test]
fn document_with_title_date_and_body() {
    let b = Blog::new("My Title\n1/5/2021\n**bold**").unwrap();
    assert_eq!(b.title, "My Title");
    assert_eq!(b.date.to_string(), "January 5, 2021");
    assert_eq!(b.body, "<p><strong>bold</strong></p>\n");
    assert_eq!(b.version, 0);
}

#[test]
fn document_with_only_a_title_misses_its_date() {
    assert_eq!(Blog::new("My Title").err(), Some(BlogError::MissingDate));
    assert_eq!(Blog::new("My Title\n").err(), Some(BlogError::MissingDate));
}

#[test]
fn empty_document_misses_its_title() {
    assert_eq!(Blog::new("").err(), Some(BlogError::MissingTitle));
}

#[test]
fn document_with_bad_date_is_rejected() {
    assert_eq!(Blog::new("T\nyesterday").err(), Some(BlogError::InvalidDate));
    assert_eq!(Blog::new("T\n1/5").err(), Some(BlogError::InvalidDate));
    assert_eq!(Blog::new("T\n13/5/2021").err(), Some(BlogError::InvalidDate));
    assert_eq!(Blog::new("T\n0/5/2021").err(), Some(BlogError::InvalidDate));
    assert_eq!(Blog::new("T\n1/256/2021").err(), Some(BlogError::InvalidDate));
    assert_eq!(Blog::new("T\n1/5/65536").err(), Some(BlogError::InvalidDate));
}

#[test]
fn header_without_body_gives_empty_body() {
    let b = Blog::new("Title\n2/3/2020").unwrap();
    assert_eq!(b.body, "");
    let b = Blog::new("Title\n2/3/2020\n").unwrap();
    assert_eq!(b.body, "");
}

#[test]
fn body_lines_are_joined_with_line_feeds() {
    let b = Blog::new("T\r\n1/1/2000\r\nfirst\r\nsecond").unwrap();
    assert_eq!(b.title, "T");
    assert_eq!(b.body, "<p>first\nsecond</p>\n");
}

#[test]
fn versioned_document_reads_its_version() {
    let b = Blog::new_versioned("0\nMy Title\n1/5/2021\n# Hi").unwrap();
    assert_eq!(b.version, 0);
    assert_eq!(b.title, "My Title");
    assert_eq!(b.date, Date { month: 1, day: 5, year: 2021 });
    assert_eq!(b.body, "<h1>Hi</h1>\n");
}

#[test]
fn versioned_document_errors() {
    assert_eq!(Blog::new_versioned("").err(), Some(BlogError::MissingVersion));
    assert_eq!(Blog::new_versioned("v1\nT\n1/1/2000").err(), Some(BlogError::InvalidVersion));
    assert_eq!(Blog::new_versioned("1").err(), Some(BlogError::MissingTitle));
    assert_eq!(Blog::new_versioned("1\nT").err(), Some(BlogError::MissingDate));
    assert_eq!(Blog::new_versioned("1\nT\nx/1/2000").err(), Some(BlogError::InvalidDate));
}

#[test]
fn lines_drop_carriage_returns_and_final_line_feed() {
    assert_eq!(lines("a\r\nb\n\nc\n"), vec!["a", "b", "", "c"]);
    assert_eq!(lines(""), Vec::<String>::new());
    assert_eq!(lines("x\r"), vec!["x\r"]);
}

#[test]
fn dates_display_with_month_names() {
    let names = [
        "January", "February", "March", "April", "May", "June", "July", "August",
        "September", "October", "November", "December",
    ];
    for (i, name) in names.iter().enumerate() {
        let token = format!("{}/9/1999", i + 1);
        let d = Date::new(&token).unwrap();
        assert_eq!(d.month as usize, i + 1);
        assert_eq!(d.to_string(), format!("{} 9, 1999", name));
    }
}

#[test]
fn dates_keep_day_and_year_unvalidated() {
    let d = Date::new("2/47/0").unwrap();
    assert_eq!(d, Date { month: 2, day: 47, year: 0 });
    assert_eq!(d.to_string(), "February 47, 0");
    assert_eq!(Date::new("+03/007/2020").unwrap().to_string(), "March 7, 2020");
    assert_eq!(Date::new("12/25/1999/extra").unwrap().to_string(), "December 25, 1999");
}

#[test]
fn malformed_dates_are_rejected() {
    assert_eq!(Date::new(""), None);
    assert_eq!(Date::new("1/2"), None);
    assert_eq!(Date::new("1//2020"), None);
    assert_eq!(Date::new("-1/2/2020"), None);
    assert_eq!(Date::new("1/2/20 20"), None);
    assert_eq!(Date::new("+/2/2020"), None);
}

#[test]
fn out_of_range_month_displays_as_invalid() {
    let d = Date { month: 13, day: 1, year: 2000 };
    assert_eq!(d.to_string(), "invalid 1, 2000");
}

#[test]
fn versioned_header_without_body_gives_empty_body() {
    let b = Blog::new_versioned("0\n\n1/5/2021\n").unwrap();
    assert_eq!(b.title, "");
    assert_eq!(b.date.to_string(), "January 5, 2021");
    assert_eq!(b.body, "");
}
