use xan::record_reader::{BufferedRecordReader, ReadRecordResult, RecordReader};

fn all_records(csv: &str, capacity: usize) -> Vec<(Vec<u8>, Vec<usize>)> {
    let mut reader = BufferedRecordReader::with_capacity(csv.as_bytes().to_vec(), capacity, b'"', b',');
    let mut out = Vec::new();
    while let Some(r) = reader.read_record() {
        out.push(r);
    }
    out
}

#[test]
fn parser_test_basics() {
    let csv = "name,surname,age\n\"john\",\"landy, the \"\"everlasting\"\" bastard\",45\nlucy,rose,\"67\"\njermaine,jackson,\"89\"\n\nkarine,loucan,\"52\"\nrose,\"glib\",12\n\"guillaume\",\"plique\",\"42\"\r\n";

    let mut reader = BufferedRecordReader::with_capacity(csv.as_bytes().to_vec(), 32, b'"', b',');
    let mut n = 0;

    while let Some((record, seps)) = reader.read_record() {
        assert!(seps.iter().copied().all(|i| record[i] == b','));
        assert_eq!(seps.len(), 2);
        n += 1;
    }

    assert_eq!(n, 7);
}

#[test]
fn records_do_not_depend_on_capacity() {
    let csv = "a,b\n\"x,\"\"y\"\"\nz\",w\r\n\n1,2";
    let expected = all_records(csv, 1024);
    assert_eq!(expected.len(), 3);
    assert_eq!(expected[0], (b"a,b\n".to_vec(), vec![1]));
    assert_eq!(expected[1], (b"\"x,\"\"y\"\"\nz\",w\r\n".to_vec(), vec![11]));
    assert_eq!(expected[2], (b"1,2".to_vec(), vec![1]));
    for capacity in 1..20 {
        assert_eq!(all_records(csv, capacity), expected);
    }
}

#[test]
fn empty_input_and_zero_capacity() {
    assert!(all_records("", 8).is_empty());
    assert!(all_records("\n\r\n", 8).is_empty());
    assert!(all_records("a,b\n", 0).is_empty());
}

#[test]
fn single_chunk_reads() {
    let mut r = RecordReader::new(b'"', b',');
    let mut seps = Vec::new();
    assert_eq!(r.read_record(b"\nab", 0, &mut seps), (ReadRecordResult::Lf, 1));
    assert_eq!(r.read_record(b"\rab", 0, &mut seps), (ReadRecordResult::Cr, 1));
    assert_eq!(r.read_record(b"a,b\nc", 10, &mut seps), (ReadRecordResult::Record, 4));
    assert_eq!(seps, vec![11]);
    seps.clear();
    assert_eq!(r.read_record(b"\"a,b", 0, &mut seps), (ReadRecordResult::InputEmpty, 4));
    assert!(seps.is_empty());
    assert_eq!(r.read_record(b"\",c", 4, &mut seps), (ReadRecordResult::InputEmpty, 3));
    assert_eq!(seps, vec![5]);
    assert_eq!(r.read_record(b"", 7, &mut seps), (ReadRecordResult::Record, 0));
    assert_eq!(r.read_record(b"", 0, &mut seps), (ReadRecordResult::End, 0));
}

#[test]
fn separators_are_the_unquoted_delimiters() {
    let csv = "a,\"b,c\"\"\",d\"e,f\"\n\"g\nh\",i\n";
    for capacity in 1..12 {
        for (record, seps) in all_records(csv, capacity) {
            let mut quotes = 0;
            let mut expected = Vec::new();
            for (i, &b) in record.iter().enumerate() {
                if b == b',' && quotes % 2 == 0 {
                    expected.push(i);
                }
                if b == b'\n' && quotes % 2 == 0 {
                    assert_eq!(i, record.len() - 1);
                }
                if b == b'"' {
                    quotes += 1;
                }
            }
            assert_eq!(seps, expected);
        }
    }
}
