use sdjournal::entry::{FieldData, FieldStep, ENOENT};
use sdjournal::flags::OpenFlags;
use sdjournal::journal::{Journal, Seek};

fn collect(journal: &mut Journal, records: &[&[u8]]) -> Vec<FieldData> {
    let mut entry = journal.entry();
    let mut fields = entry.fields();
    let mut out = Vec::new();
    for raw in records {
        match fields.next(1, raw) {
            FieldStep::Field(f) => out.push(f),
            other => panic!("unexpected step {:?}", other),
        }
    }
    assert!(matches!(fields.next(0, &[]), FieldStep::End));
    out
}

#[test]
fn test_nonexist_field() {
    let mut journal = Journal::open(OpenFlags::empty(), 0).unwrap();
    journal.seek(Seek::Head, 0).unwrap();
    assert!(journal.next(1).unwrap());
    let mut entry = journal.entry();
    assert!(entry.field("NON_EXIST__", -ENOENT, &[]).unwrap().is_none())
}

#[test]
fn test_enumerate_fields() {
    let mut journal = Journal::open(OpenFlags::empty(), 0).unwrap();
    journal.seek(Seek::Head, 0).unwrap();
    assert!(journal.next(1).unwrap());
    let records: [&[u8]; 3] = [b"MESSAGE=hello", b"PRIORITY=6", b"_PID=1"];
    let fields = collect(&mut journal, &records);
    for field in &fields {
        println!("field {}={}", field.name, String::from_utf8_lossy(&field.data));
    }
    assert_eq!(fields.len(), 3);
}

#[test]
fn message_round_trip() {
    let mut journal = Journal::open(OpenFlags::empty(), 0).unwrap();
    let mut entry = journal.entry();
    let f = entry.field("MESSAGE", 0, b"MESSAGE=hello").unwrap().unwrap();
    assert_eq!(f, FieldData { name: "MESSAGE".to_string(), data: b"hello".to_vec() });
}

#[test]
fn from_raw_splits_at_the_first_delimiter() {
    let f = FieldData::from_raw(b"KEY=a=b").unwrap();
    assert_eq!(f.name, "KEY");
    assert_eq!(f.data, b"a=b".to_vec());
    let e = FieldData::from_raw(b"EMPTY=").unwrap();
    assert_eq!(e.name, "EMPTY");
    assert!(e.data.is_empty());
    let bin = FieldData::from_raw(&[b'B', b'=', 0, 0xff, 10]).unwrap();
    assert_eq!(bin.data, vec![0, 0xff, 10]);
    let uni = FieldData::from_raw("NÄME=x".as_bytes()).unwrap();
    assert_eq!(uni.name, "NÄME");
    assert!(FieldData::from_raw(b"NODELIMITER").is_none());
    assert!(FieldData::from_raw(b"").is_none());
    assert!(FieldData::from_raw(&[0xc3, b'=', b'x']).is_none());
}

#[test]
fn into_owned_keeps_the_field() {
    let f = FieldData::from_raw(b"A=1").unwrap();
    let g = f.clone().into_owned();
    assert_eq!(f, g);
}

#[test]
fn enumeration_again_gives_the_same_fields() {
    let mut journal = Journal::open(OpenFlags::empty(), 0).unwrap();
    let first: [&[u8]; 3] = [b"MESSAGE=hello", b"PRIORITY=6", b"_PID=1"];
    let second: [&[u8]; 3] = [b"_PID=1", b"MESSAGE=hello", b"PRIORITY=6"];
    let a = collect(&mut journal, &first);
    let b = collect(&mut journal, &second);
    let mut entry = journal.entry();
    let mut ma = entry.all_fields(a);
    let mut mb = entry.all_fields(b);
    ma.sort_by(|x, y| x.name.cmp(&y.name));
    mb.sort_by(|x, y| x.name.cmp(&y.name));
    assert_eq!(ma, mb);
    assert_eq!(ma.len(), 3);
}

#[test]
fn all_fields_later_duplicate_wins() {
    let mut journal = Journal::open(OpenFlags::empty(), 0).unwrap();
    let records: [&[u8]; 4] = [b"A=1", b"B=2", b"A=3", b"C="];
    let fs = collect(&mut journal, &records);
    let mut entry = journal.entry();
    let all = entry.all_fields(fs);
    assert_eq!(all.len(), 3);
    let a = all.iter().find(|f| f.name == "A").unwrap();
    assert_eq!(a.data, b"3".to_vec());
    let c = all.iter().find(|f| f.name == "C").unwrap();
    assert!(c.data.is_empty());
    assert!(entry.all_fields(Vec::new()).is_empty());
}
