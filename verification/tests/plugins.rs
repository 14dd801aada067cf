use netter::plugins::{is_email_valid, is_ip_valid, random};

fn yes(r: Result<String, String>) -> bool {
    match r.unwrap().as_str() {
        "true" => true,
        "false" => false,
        other => panic!("unexpected answer {}", other),
    }
}

#[test]
fn email_needs_at_and_dot() {
    assert!(yes(is_email_valid("user@example.com".to_string())));
    assert!(!yes(is_email_valid("user.example.com".to_string())));
    assert!(!yes(is_email_valid("user@example".to_string())));
    assert!(yes(is_email_valid(".@".to_string())));
    assert!(!yes(is_email_valid(String::new())));
}

#[test]
fn ip_addresses_with_and_without_port() {
    assert!(yes(is_ip_valid("192.168.0.1".to_string())));
    assert!(yes(is_ip_valid("127.0.0.1:8080".to_string())));
    assert!(yes(is_ip_valid("0.0.0.0:0".to_string())));
    assert!(yes(is_ip_valid("255.255.255.255:65535".to_string())));
    assert!(yes(is_ip_valid("+1.2.3.004".to_string())));
    assert!(!yes(is_ip_valid("256.1.1.1".to_string())));
    assert!(!yes(is_ip_valid("1.2.3".to_string())));
    assert!(!yes(is_ip_valid("1.2.3.4.5".to_string())));
    assert!(!yes(is_ip_valid("1..2.3".to_string())));
    assert!(!yes(is_ip_valid("a.b.c.d".to_string())));
    assert!(!yes(is_ip_valid("1.2.3.4:65536".to_string())));
    assert!(!yes(is_ip_valid("1.2.3.4:".to_string())));
    assert!(!yes(is_ip_valid("1.2.3.4:80:90".to_string())));
    assert!(!yes(is_ip_valid("-1.2.3.4".to_string())));
    assert!(!yes(is_ip_valid(String::new())));
}

#[test]
fn random_stays_in_range() {
    for _ in 0..50 {
        let v: i32 = random(-3, 3).unwrap().parse().unwrap();
        assert!((-3..=3).contains(&v));
    }
    assert_eq!(random(7, 7).unwrap(), "7");
    assert_eq!(random(i32::MIN, i32::MIN).unwrap(), i32::MIN.to_string());
}
