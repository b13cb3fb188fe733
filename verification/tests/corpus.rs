use tartiflette::corpus::{log2, Corpus, FuzzCov, FuzzInput};
use tartiflette::text::{parse_usize, push_decimal, push_hex, push_hex_fixed, str_equal};

fn input(data: &[u8]) -> FuzzInput {
    let mut input = FuzzInput::new();
    input.data = data.to_vec();
    input.filename = input.generate_filename();
    input
}

#[test]
fn content_hash_is_fnv1a() {
    assert_eq!(input(b"").hash(), 0xcbf2_9ce4_8422_2325);
    assert_eq!(input(b"a").hash(), 0xaf63_dc4c_8601_ec8c);
    assert_eq!(input(b"foobar").hash(), 0x8594_4171_f739_67e8);
}

#[test]
fn filename_is_derived_from_the_content() {
    assert_eq!(input(b"a").generate_filename(), "af63dc4c8601ec8c.00000001.cov");
    assert_eq!(input(b"").generate_filename(), "cbf29ce484222325.00000000.cov");
    assert_eq!(input(b"foobar").generate_filename(), "85944171f73967e8.00000006.cov");

    // equal content, equal names; the rest of the input does not count
    let mut a = input(&[7u8; 64]);
    let b = input(&[7u8; 64]);
    a.idx = 5;
    a.exec_usec = 99;
    a.refs = 3;
    a.cov = FuzzCov { counters: [1, 2, 3, 4] };
    assert_eq!(a.generate_filename(), b.generate_filename());

    // different content, different names
    let mut other = [7u8; 64];
    other[63] = 8;
    assert_ne!(input(&other).generate_filename(), a.generate_filename());
    assert_ne!(input(&[7u8; 63]).generate_filename(), a.generate_filename());
    assert_ne!(input(&[0]).generate_filename(), input(&[]).generate_filename());
    assert_ne!(input(&[0]).generate_filename(), input(&[0, 0]).generate_filename());
}

#[test]
fn adding_an_input_twice_adds_it_once() {
    let mut corpus = Corpus::new();
    let mut count = 0usize;
    assert!(corpus.add_file(input(&[0x41; 64]), &mut count));
    assert_eq!((corpus.len(), count), (1, 1));
    assert!(!corpus.add_file(input(&[0x41; 64]), &mut count));
    assert_eq!((corpus.len(), count), (1, 1));
    let name = input(&[0x41; 64]).generate_filename();
    assert!(corpus.contains(&name));
    assert_eq!(corpus.files.iter().filter(|f| f.filename == name).count(), 1);
}

#[test]
fn inputs_are_numbered_in_the_order_they_come() {
    let mut corpus = Corpus::new();
    let mut count = 10usize;
    let mut first = input(b"one");
    first.idx = 77;
    first.exec_usec = 5;
    assert!(corpus.add_file(first, &mut count));
    assert!(corpus.add_file(input(b"two"), &mut count));
    assert!(!corpus.add_file(input(b"one"), &mut count));
    assert!(corpus.add_file(input(b"three"), &mut count));
    assert_eq!(count, 13);
    assert_eq!(corpus.len(), 3);
    let idx: Vec<usize> = corpus.files.iter().map(|f| f.idx).collect();
    assert_eq!(idx, vec![10, 11, 12]);
    assert_eq!(corpus.get(0).unwrap().data, b"one");
    assert_eq!(corpus.get(0).unwrap().exec_usec, 5);
    assert_eq!(corpus.get(2).unwrap().data, b"three");
    assert!(corpus.get(3).is_none());
}

#[test]
fn iteration_resumes_after_a_name() {
    let mut corpus = Corpus::new();
    let mut count = 0usize;
    for data in [b"a", b"b", b"c"] {
        corpus.add_file(input(data), &mut count);
    }
    let names: Vec<String> = corpus.files.iter().map(|f| f.filename.clone()).collect();
    assert_eq!(corpus.iter(), 0);
    assert_eq!(corpus.iter_from(&names[0]), 1);
    assert_eq!(corpus.iter_from(&names[1]), 2);
    // after the last input, and after a name that is not there: nothing
    assert_eq!(corpus.iter_from(&names[2]), 3);
    assert_eq!(corpus.iter_from("no such input"), 3);
    assert_eq!(corpus.find(&names[1]), 1);
    assert_eq!(corpus.find("no such input"), 3);
    assert!(!corpus.contains("no such input"));
    assert!(!Corpus::new().contains(&names[0]));
}

#[test]
fn fork_copies_an_input_with_its_run_time() {
    let mut plain = input(b"a");
    plain.idx = 3;
    plain.refs = 2;
    plain.cov = FuzzCov { counters: [9, 8, 7, 6] };
    let fork = plain.fork(1234);
    assert_eq!(fork.filename, "af63dc4c8601ec8c.00000001.cov");
    assert_eq!(fork.exec_usec, 1234);
    assert_eq!((fork.idx, fork.refs), (3, 2));
    assert_eq!(fork.cov.bytes(), [9, 8, 7, 6]);
    assert_eq!(fork.data, b"a");

    plain.filename = "[DYNAMIC-0-SIZE]".to_string();
    assert_eq!(plain.fork(0).filename, "[DYNAMIC-0-SIZE]");
}

#[test]
fn coverage_envelope_and_gain() {
    let a = FuzzCov { counters: [1, 5, 0, 9] };
    let b = FuzzCov { counters: [2, 3, 0, 9] };
    assert_eq!(a.compute_local_max(&b).bytes(), [2, 5, 0, 9]);
    assert_eq!(b.compute_local_max(&a).bytes(), [2, 5, 0, 9]);
    assert_eq!(FuzzCov::new().bytes(), [0, 0, 0, 0]);

    // more in one counter, less in none
    assert!(FuzzCov { counters: [1, 5, 1, 9] }.is_gain(&a));
    assert!(FuzzCov { counters: [2, 6, 1, 10] }.is_gain(&a));
    // the same is no gain
    assert!(!a.is_gain(&a));
    // more in one counter and less in another is none either
    assert!(!b.is_gain(&a));
    assert!(!a.is_gain(&b));
    assert!(a.compute_local_max(&b).is_gain(&a));
}

#[test]
fn logarithm() {
    assert_eq!(log2(0), 0);
    assert_eq!(log2(1), 0);
    assert_eq!(log2(2), 1);
    assert_eq!(log2(3), 1);
    assert_eq!(log2(4), 2);
    assert_eq!(log2(1023), 9);
    assert_eq!(log2(1024), 10);
    assert_eq!(log2(usize::MAX), usize::BITS - 1);
}

#[test]
fn hexadecimal_and_decimal_text() {
    let mut text = String::from(">");
    push_hex(&mut text, 0);
    text.push(' ');
    push_hex(&mut text, 0xdead_beef);
    text.push(' ');
    push_hex(&mut text, u64::MAX);
    assert_eq!(text, ">0 deadbeef ffffffffffffffff");

    let mut text = String::new();
    push_hex_fixed(&mut text, 0x1f, 4);
    push_hex_fixed(&mut text, 0x12345, 4);
    push_hex_fixed(&mut text, 9, 0);
    assert_eq!(text, "001f2345");

    let mut text = String::new();
    push_decimal(&mut text, 0);
    text.push(' ');
    push_decimal(&mut text, 1024);
    text.push(' ');
    push_decimal(&mut text, u64::MAX);
    assert_eq!(text, "0 1024 18446744073709551615");
}

#[test]
fn numbers_are_read_as_the_standard_library_reads_them() {
    let max = usize::MAX.to_string();
    let over = format!("{}0", max);
    let cases = [
        "0", "7", "42", "+42", "0042", "1024", "", "+", "-1", "4 2", " 42", "42 ", "0x10", "1e3",
        "++1", "1+", "18446744073709551616", "99999999999999999999999", "٣", max.as_str(),
        over.as_str(),
    ];
    for case in cases {
        assert_eq!(parse_usize(case), case.parse::<usize>().ok(), "{:?}", case);
    }
    assert_eq!(parse_usize("134217728"), Some(128 * 1024 * 1024));
    assert_eq!(parse_usize(&max), Some(usize::MAX));
}

#[test]
fn strings_are_compared_by_their_characters() {
    assert!(str_equal("", ""));
    assert!(str_equal("rax", "rax"));
    assert!(!str_equal("rax", "rbx"));
    assert!(!str_equal("rax", "ra"));
    assert!(!str_equal("ra", "rax"));
    assert!(str_equal("é٣", "é٣"));
    assert!(!str_equal("é", "e"));
}
