use calfilter::filter_calendar;

#[test]
fn ending_with_cancelled_works() {
    let feed = "
BEGIN:VCALENDAR
VERSION:2.0
PRODID:icalendar-ruby
CALSCALE:GREGORIAN
METHOD:PUBLISH
NAME:RC Personal Calendar
X-WR-CALNAME:RC Personal Calendar
REFRESH-INTERVAL;VALUE=DURATION:PT1M
X-PUBLISHED-TTL:PT1M
BEGIN:VTIMEZONE
TZID:America/New_York
BEGIN:DAYLIGHT
DTSTART:20220313T030000
TZOFFSETFROM:-0500
TZOFFSETTO:-0400
RRULE:FREQ=YEARLY;BYDAY=2SU;BYMONTH=3
TZNAME:EDT
END:DAYLIGHT
BEGIN:STANDARD
DTSTART:20221106T010000
TZOFFSETFROM:-0400
TZOFFSETTO:-0500
RRULE:FREQ=YEARLY;BYDAY=1SU;BYMONTH=11
TZNAME:EST
END:STANDARD
END:VTIMEZONE
BEGIN:VEVENT
DTSTAMP:20220929T105407Z
UID:calendar-event-18894@recurse.com
DTSTART;TZID=America/New_York:20221031T110000
DTEND;TZID=America/New_York:20221031T113000
STATUS:CANCELLED
END:VEVENT
END:VCALENDAR
"
    .trim();
    let expected = "
BEGIN:VCALENDAR
VERSION:2.0
PRODID:icalendar-ruby
CALSCALE:GREGORIAN
METHOD:PUBLISH
NAME:RC Personal Calendar
X-WR-CALNAME:RC Personal Calendar
REFRESH-INTERVAL;VALUE=DURATION:PT1M
X-PUBLISHED-TTL:PT1M
BEGIN:VTIMEZONE
TZID:America/New_York
BEGIN:DAYLIGHT
DTSTART:20220313T030000
TZOFFSETFROM:-0500
TZOFFSETTO:-0400
RRULE:FREQ=YEARLY;BYDAY=2SU;BYMONTH=3
TZNAME:EDT
END:DAYLIGHT
BEGIN:STANDARD
DTSTART:20221106T010000
TZOFFSETFROM:-0400
TZOFFSETTO:-0500
RRULE:FREQ=YEARLY;BYDAY=1SU;BYMONTH=11
TZNAME:EST
END:STANDARD
END:VTIMEZONE
END:VCALENDAR
"
    .trim();

    assert_eq!(expected, filter_calendar(feed));
}

// A preamble, one kept event, one cancelled event, then the closing
// tag: the output is the input without the cancelled block's text,
// with the closing tag kept exactly once.
#[test]
fn preamble_kept_event_cancelled_event() {
    let feed = "BEGIN:VCALENDAR
VERSION:2.0
BEGIN:VEVENT
UID:keep-1
SUMMARY:Tea
END:VEVENT
BEGIN:VEVENT
UID:drop-1
STATUS:CANCELLED
END:VEVENT
END:VCALENDAR";
    let expected = "BEGIN:VCALENDAR
VERSION:2.0
BEGIN:VEVENT
UID:keep-1
SUMMARY:Tea
END:VEVENT
END:VCALENDAR";
    assert_eq!(expected, filter_calendar(feed));
}

// Exactly one cancelled block in the middle: its full text is gone,
// every other block is kept verbatim.
#[test]
fn middle_block_removed_others_verbatim() {
    let feed = "BEGIN:VCALENDAR
BEGIN:VEVENT
UID:a
STATUS:CANCELLED
END:VEVENT
BEGIN:VEVENT
UID:b
END:VEVENT
END:VCALENDAR";
    let expected = "BEGIN:VCALENDAR
BEGIN:VEVENT
UID:b
END:VEVENT
END:VCALENDAR";
    assert_eq!(expected, filter_calendar(feed));
}

// A feed without any cancellation marker comes back unchanged, up to
// trimming of surrounding whitespace.
#[test]
fn already_filtered_feed_unchanged() {
    let feed = "BEGIN:VCALENDAR
BEGIN:VEVENT
UID:a
END:VEVENT
END:VCALENDAR";
    assert_eq!(feed, filter_calendar(feed));
    let padded = format!("\n  {}\n\t", feed);
    assert_eq!(feed, filter_calendar(&padded));
}

// Every event cancelled: only the preamble and the closing tag stay.
#[test]
fn all_events_cancelled() {
    let feed = "BEGIN:VCALENDAR
VERSION:2.0
BEGIN:VEVENT
UID:a
STATUS:CANCELLED
END:VEVENT
BEGIN:VEVENT
UID:b
STATUS:CANCELLED
END:VEVENT
END:VCALENDAR";
    let expected = "BEGIN:VCALENDAR
VERSION:2.0
END:VCALENDAR";
    assert_eq!(expected, filter_calendar(feed));
}

// Filtering a second time changes nothing further.
#[test]
fn filtering_twice_changes_nothing_more() {
    let feed = "BEGIN:VCALENDAR
BEGIN:VEVENT
UID:a
STATUS:CANCELLED
END:VEVENT
BEGIN:VEVENT
UID:b
END:VEVENT
END:VCALENDAR";
    let once = filter_calendar(feed);
    let twice = filter_calendar(&once);
    assert_eq!(once, twice);
}

// The degenerate empty feed: the closing tag is synthesised onto an
// empty text.
#[test]
fn empty_feed_gets_closing_tag() {
    assert_eq!("\nEND:VCALENDAR", filter_calendar(""));
}
