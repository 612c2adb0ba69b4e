use zugli::mdns::{build_response, question_matches, should_answer, walk_name};

fn query(questions: &[(&[&str], u16)]) -> Vec<u8> {
    let mut p = vec![0u8; 12];
    p[5] = questions.len() as u8;
    for (labels, qtype) in questions {
        for l in labels.iter() {
            p.push(l.len() as u8);
            p.extend_from_slice(l.as_bytes());
        }
        p.push(0);
        p.extend_from_slice(&qtype.to_be_bytes());
        p.extend_from_slice(&[0, 1]);
    }
    p
}

#[test]
fn own_name_is_recognised() {
    let q = query(&[(&["zugli", "local"], 1)]);
    assert_eq!(walk_name(&q, 12), Some((true, 25)));
    assert!(question_matches(&q));
    assert!(should_answer(&q));
}

#[test]
fn case_does_not_matter() {
    assert!(should_answer(&query(&[(&["ZuGLi", "LOCAL"], 255)])));
}

#[test]
fn other_names_are_not_ours() {
    assert!(!should_answer(&query(&[(&["zugli"], 1)])));
    assert!(!should_answer(&query(&[(&["zugli", "local", "x"], 1)])));
    assert!(!should_answer(&query(&[(&["zuglj", "local"], 1)])));
    assert!(!should_answer(&query(&[(&["local", "zugli"], 1)])));
    assert!(!should_answer(&query(&[(&[], 1)])));
}

#[test]
fn only_a_and_any_are_answered() {
    assert!(!should_answer(&query(&[(&["zugli", "local"], 28)])));
    assert!(!should_answer(&query(&[(&["zugli", "local"], 12)])));
}

#[test]
fn a_later_question_counts() {
    let q = query(&[(&["zugli", "local"], 28), (&["zugli", "local"], 1)]);
    assert!(should_answer(&q));
    let q = query(&[(&["printer", "local"], 1), (&["zugli", "local"], 1)]);
    assert!(should_answer(&q));
}

#[test]
fn malformed_questions_end_the_search() {
    let mut q = query(&[(&["zugli", "local"], 1)]);
    q[12] = 0xC0;
    assert_eq!(walk_name(&q, 12), None);
    assert!(!question_matches(&q));
    let q = query(&[(&["zugli", "local"], 1)]);
    assert!(!question_matches(&q[..20]));
    assert!(!question_matches(&q[..26]));
    assert!(question_matches(&q[..27]));
    assert_eq!(walk_name(&q, 500), None);
}

#[test]
fn short_packets_and_responses_are_ignored() {
    let mut q = query(&[(&["zugli", "local"], 1)]);
    assert!(!should_answer(&q[..11]));
    assert!(!question_matches(&q[..5]));
    q[2] = 0x80;
    assert!(question_matches(&q));
    assert!(!should_answer(&q));
}

#[test]
fn more_questions_than_there_are() {
    let mut q = query(&[(&["other", "local"], 1)]);
    q[4] = 0xFF;
    assert!(!should_answer(&q));
}

#[test]
fn response_is_one_a_record() {
    let mut out = [0xEEu8; 64];
    let n = build_response(&mut out, [192, 168, 1, 7]);
    assert_eq!(n, 39);
    let mut expected = vec![0, 0, 0x84, 0, 0, 0, 0, 1, 0, 0, 0, 0];
    expected.extend_from_slice(b"\x05zugli\x05local\x00");
    expected.extend_from_slice(&[0, 1, 0x80, 1, 0, 0, 0, 120, 0, 4, 192, 168, 1, 7]);
    assert_eq!(&out[..n], &expected[..]);
    assert!(out[n..].iter().all(|b| *b == 0xEE));
}

#[test]
fn own_response_reads_back_but_is_not_answered() {
    let mut out = [0u8; 64];
    let n = build_response(&mut out, [10, 0, 0, 1]);
    assert_eq!(walk_name(&out[..n], 12), Some((true, 25)));
    assert!(!should_answer(&out[..n]));
}

#[test]
fn packets_of_any_length_are_searched() {
    let mut q = query(&[(&["zugli", "local"], 28), (&["zugli", "local"], 1)]);
    q.resize(100_000, 0);
    assert!(should_answer(&q));
    q[2] = 0x80;
    assert!(!should_answer(&q));
    // Cut off after the first question's type: the second cannot be read.
    let q = query(&[(&["zugli", "local"], 28), (&["zugli", "local"], 1)]);
    assert!(!question_matches(&q[..27]));
    assert!(!question_matches(&q[..28]));
    assert!(!question_matches(&q[..29]));
}
