use video2en::segment::Segment;
use video2en::subtitle::{format_timestamp, parse_timestamp, render_srt, render_txt, TimestampError};

#[test]
fn timestamps_are_zero_padded() {
    assert_eq!(format_timestamp(0), "00:00:00,000");
    assert_eq!(format_timestamp(3723004), "01:02:03,004");
    assert_eq!(format_timestamp(u32::MAX), "1193:02:47,295");
}

#[test]
fn timestamps_parse_back() {
    assert_eq!(parse_timestamp("01:02:03,004"), Ok(3723004));
    assert_eq!(parse_timestamp("1193:02:47,295"), Ok(u32::MAX));
    assert_eq!(parse_timestamp("+1:0:0,0"), Ok(3600000));
}

#[test]
fn malformed_timestamps_are_refused() {
    assert_eq!(parse_timestamp("01:02"), Err(TimestampError::BadFormat));
    assert_eq!(parse_timestamp("01:02:03.004"), Err(TimestampError::BadSeconds));
    assert_eq!(parse_timestamp("01:xx:03,004"), Err(TimestampError::BadNumber));
    assert_eq!(parse_timestamp("01::03,004"), Err(TimestampError::BadNumber));
    assert_eq!(parse_timestamp("1193:02:47,296"), Err(TimestampError::OutOfRange));
    assert_eq!(parse_timestamp("99999999999:00:00,000"), Err(TimestampError::BadNumber));
}

#[test]
fn srt_and_txt_layouts() {
    let segs = vec![
        Segment::new(0, 3000, "Hello".to_string()),
        Segment::new(3000, 6000, "world".to_string()),
    ];
    assert_eq!(
        render_srt(&segs),
        "1\n00:00:00,000 --> 00:00:03,000\nHello\n\n2\n00:00:03,000 --> 00:00:06,000\nworld\n\n"
    );
    assert_eq!(render_txt(&segs), "Hello\n\nworld");
    assert_eq!(render_txt(&Vec::new()), "");
}
