use codemode::logs::{LogBuffer, Offer};

#[test]
fn lines_are_kept_within_the_budget() {
    let mut logs = LogBuffer::new(10);
    logs.push("12345".to_string());
    logs.push("12345".to_string());
    logs.push("x".to_string());
    assert_eq!(logs.into_lines(), ["12345", "12345"]);

    let mut logs = LogBuffer::new(10);
    logs.push("12345".to_string());
    logs.push("123456".to_string());
    logs.push("x".to_string());
    assert_eq!(logs.into_lines(), ["12345", "[logs truncated]"]);
}

#[test]
fn empty_lines_are_charged_a_byte() {
    let mut logs = LogBuffer::new(2);
    for _ in 0..5 {
        logs.push(String::new());
    }
    assert_eq!(logs.into_lines(), ["", ""]);
}

#[test]
fn announced_lines_are_declined_unread() {
    let mut logs = LogBuffer::new(3);
    assert_eq!(logs.offer(3), Offer::Wanted);
    logs.push("äö".to_string());
    assert_eq!(logs.offer(1), Offer::Declined);
    assert_eq!(logs.into_lines(), ["[logs truncated]"]);

    let mut logs = LogBuffer::new(3);
    assert_eq!(logs.offer(4), Offer::Declined);
    assert_eq!(logs.offer(0), Offer::Declined);
    assert_eq!(logs.into_lines(), ["[logs truncated]"]);
}

#[test]
fn no_budget_means_no_lines() {
    let mut logs = LogBuffer::new(0);
    assert_eq!(logs.offer(0), Offer::Declined);
    logs.push("a".to_string());
    assert!(logs.into_lines().is_empty());
}

#[test]
fn announcing_first_changes_nothing() {
    let lines = ["abc", "", "déjà vu", "😀", "x", "yy"];
    for budget in 0..25 {
        let mut announced = LogBuffer::new(budget);
        let mut plain = LogBuffer::new(budget);
        for line in lines {
            if announced.offer(line.encode_utf16().count()) == Offer::Wanted {
                announced.push(line.to_string());
            }
            plain.push(line.to_string());
        }
        let lines = announced.into_lines();
        assert_eq!(lines, plain.into_lines());
        let bytes: usize = lines.iter().map(|l| l.len()).sum();
        assert!(bytes <= budget + "[logs truncated]".len());
        assert!(lines.len() <= budget + 1);
    }
}

#[test]
fn kept_lines_are_the_first_ones() {
    let lines = ["abc", "", "dé", "f"];
    // What the first lines are charged together.
    let charges = [0, 3, 4, 7, 8];
    for budget in 0..10 {
        let mut logs = LogBuffer::new(budget);
        for line in lines {
            logs.push(line.to_string());
        }
        let k = (0..5).rev().find(|&k| charges[k] <= budget).unwrap();
        let mut expected = lines[..k].to_vec();
        if k < lines.len() && charges[k] < budget {
            expected.push("[logs truncated]");
        }
        assert_eq!(logs.into_lines(), expected, "{budget}");
    }
}
