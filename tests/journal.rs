use sdjournal::entry::{FieldData, FieldStep, ENOENT};
use sdjournal::flags::OpenFlags;
use sdjournal::id128::Id128;
use sdjournal::journal::{Journal, Seek};

fn message(journal: &mut Journal, ret: i32, raw: &[u8]) -> FieldData {
    let mut entry = journal.entry();
    entry.field("MESSAGE", ret, raw).unwrap().unwrap().into_owned()
}

#[test]
fn test_get_all_fields() {
    let mut journal = Journal::open(OpenFlags::empty(), 0).unwrap();
    let results = vec![
        (1, "MESSAGE".to_string()),
        (1, "PRIORITY".to_string()),
        (1, "_PID".to_string()),
        (0, String::new()),
    ];
    let fields = journal.all_fields(&results);
    println!("fields: {:?}", fields);
    assert_eq!(fields, vec!["MESSAGE".to_string(), "PRIORITY".to_string(), "_PID".to_string()]);
}

#[test]
fn test_next_previous_netry() {
    let mut journal = Journal::open(OpenFlags::empty(), 0).unwrap();
    assert!(journal.next_entry(1).is_some());
    let id1 = message(&mut journal, 0, b"MESSAGE=first");
    assert!(journal.next_entry(1).is_some());
    let id2 = message(&mut journal, 0, b"MESSAGE=second");
    assert!(journal.next_entry(1).is_some());
    let _id3 = message(&mut journal, 0, b"MESSAGE=third");
    assert!(journal.previous_entry(1).is_some());
    let id2p = message(&mut journal, 0, b"MESSAGE=second");
    assert!(journal.previous_entry(1).is_some());
    let id1p = message(&mut journal, 0, b"MESSAGE=first");
    assert_eq!(id1, id1p);
    assert_eq!(id2, id2p);
    assert_eq!(id2p.data, b"second".to_vec());
    assert_eq!(id1p.data, b"first".to_vec());
}

#[test]
fn test_open() {
    let mut journal = Journal::open(OpenFlags::empty(), 0).unwrap();
    println!("usage {}", journal.usage(0, 4096).unwrap());
    journal.seek(Seek::Head, 0).unwrap();
    println!("seek head done");
    assert!(journal.next(1).unwrap());
    println!("next head done");
    let mut entry = journal.entry();
    let field = entry.field("MESSAGE", 0, b"MESSAGE=hello").unwrap().unwrap();
    println!("field {}={}", field.name, String::from_utf8_lossy(&field.data));
    assert_eq!(field.name, "MESSAGE");
}

#[test]
fn open_failure_keeps_the_status() {
    assert_eq!(Journal::open(OpenFlags::all(), -22).err(), Some(-22));
    let journal = Journal::open(OpenFlags::all(), 0).unwrap();
    assert_eq!(journal.flags(), OpenFlags::all());
    assert!(!journal.on_entry());
}

#[test]
fn open_with_every_option_set() {
    for bits in 0u32..32 {
        let flags = OpenFlags::from_bits(bits).unwrap();
        for ret in [0, 1, -1, -2, -13, i32::MIN] {
            match Journal::open(flags, ret) {
                Ok(j) => {
                    assert!(ret >= 0);
                    assert_eq!(j.flags().bits(), bits);
                }
                Err(e) => {
                    assert!(ret < 0);
                    assert_eq!(e, ret);
                }
            }
        }
    }
}

#[test]
fn usage_reports_bytes_or_error() {
    let journal = Journal::open(OpenFlags::empty(), 0).unwrap();
    assert_eq!(journal.usage(0, 123456), Ok(123456));
    assert_eq!(journal.usage(-5, 99), Err(-5));
}

#[test]
fn seek_needs_a_step_afterwards() {
    let mut journal = Journal::open(OpenFlags::empty(), 0).unwrap();
    assert_eq!(journal.next(1), Ok(true));
    assert!(journal.on_entry());
    assert_eq!(journal.seek(Seek::Tail, 0), Ok(()));
    assert!(!journal.on_entry());
    assert_eq!(journal.previous(1), Ok(true));
    assert_eq!(journal.seek(Seek::Realtime { usec: 1_700_000_000_000_000 }, -5), Err(-5));
    assert!(journal.on_entry());
    let boot = Id128::from_bytes([7u8; 16]);
    assert_eq!(journal.seek(Seek::Monotonic { boot_id: boot, usec: 42 }, 0), Ok(()));
    assert!(!journal.on_entry());
}

#[test]
fn head_walk_ends_at_the_boundary() {
    let mut journal = Journal::open(OpenFlags::empty(), 0).unwrap();
    journal.seek(Seek::Head, 0).unwrap();
    let statuses = [1, 1, 1, 0];
    let mut steps = 0;
    for ret in statuses {
        if !journal.next(ret).unwrap() {
            break;
        }
        steps += 1;
    }
    assert_eq!(steps, 3);
    assert!(!journal.on_entry());
    assert_eq!(journal.next(-74), Err(-74));
    assert_eq!(journal.next(2), Err(2));
}

#[test]
fn stepping_entries_ends_with_none() {
    let mut journal = Journal::open(OpenFlags::empty(), 0).unwrap();
    assert!(journal.next_entry(0).is_none());
    assert!(journal.previous_entry(0).is_none());
    assert!(journal.previous_entry(1).is_some());
    assert!(journal.on_entry());
}

#[test]
fn skip_past_the_boundary_is_a_short_count() {
    let mut journal = Journal::open(OpenFlags::empty(), 0).unwrap();
    assert_eq!(Journal::skip_call(10), (true, 10));
    assert_eq!(Journal::skip_call(-3), (false, 3));
    assert_eq!(Journal::skip_call(0), (true, 0));
    assert_eq!(Journal::skip_call(i64::MIN), (false, 1u64 << 63));
    let got = journal.skip(10, 4).unwrap();
    assert!(got < 10);
    assert_eq!(got, 4);
    assert_eq!(journal.skip(-10, -5), Err(-5));
    assert!(journal.on_entry());
}

#[test]
fn field_absent_or_failed() {
    let mut journal = Journal::open(OpenFlags::empty(), 0).unwrap();
    assert!(journal.next(1).unwrap());
    let mut entry = journal.entry();
    assert_eq!(entry.field("NON_EXIST__", -ENOENT, &[]), Ok(None));
    assert_eq!(entry.field("MESSAGE", -12, &[]), Err(-12));
}

#[test]
fn enumeration_step_outcomes() {
    let mut journal = Journal::open(OpenFlags::empty(), 0).unwrap();
    let mut entry = journal.entry();
    let mut fields = entry.fields();
    assert!(!fields.exhausted());
    assert!(matches!(fields.next(-5, &[]), FieldStep::Failed(-5)));
    assert!(matches!(fields.next(1, b"NOVALUE"), FieldStep::Malformed));
    assert!(matches!(fields.next(1, &[0xff, b'=', b'x']), FieldStep::Malformed));
    assert!(matches!(fields.next(0, &[]), FieldStep::End));
    assert!(fields.exhausted());
    assert!(matches!(fields.next(1, b"A=b"), FieldStep::End));
}

#[test]
fn status_mapping() {
    assert_eq!(sdjournal::checked(0), Ok(0));
    assert_eq!(sdjournal::checked(7), Ok(7));
    assert_eq!(sdjournal::checked(-1), Err(-1));
    assert_eq!(sdjournal::checked(i32::MIN), Err(i32::MIN));
}
