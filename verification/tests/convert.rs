use incubator::convert::{EmailString, Random};

#[test]
fn email_valid() {
    let e: EmailString = "test@test".try_into().unwrap();
    assert_eq!(e.as_ref(), "test@test");
    let s: String = e.into();
    assert_eq!(s, "test@test".to_string());
}

#[test]
#[should_panic]
fn email_invalid() {
    let _: EmailString = "test@test@test".try_into().unwrap();
}

#[test]
fn random_value_conversation() {
    let t = (1, 2, 3);
    let r: Random<u8> = t.into();
    let t: (u8, u8, u8) = r.into();
    assert_eq!(t, (1, 2, 3));
}

#[test]
fn random_value_deref() {
    let t: Random<u8> = (1, 2, 3).into();
    let i: &u8 = &t;
    assert_ne!(i, &4);
    assert!(vec![1, 2, 3].contains(i));
}

#[test]
fn email_needs_exactly_one_at_sign() {
    for text in ["", "test", "test@test@test", "@@", "a@b@"] {
        assert!(EmailString::try_from(text).is_err(), "{:?}", text);
    }
    for text in ["@", "a@", "@b", "ü@ü.ü"] {
        let email = EmailString::try_from(text).unwrap();
        assert_eq!(email.len(), text.len());
        assert_eq!(String::from(email), text);
    }
}

#[test]
fn draw_selects_by_its_remainder() {
    let r = Random('a', 'b', 'c');
    assert_eq!(*r.select(0), 'a');
    assert_eq!(*r.select(1), 'b');
    assert_eq!(*r.select(2), 'c');
    assert_eq!(*r.select(3), 'a');
    assert_eq!(*r.select(254), 'c');
    assert_eq!(*r.select(255), 'a');
}

#[test]
fn random_deref_reaches_each_value() {
    let r: Random<u8> = (1, 2, 3).into();
    let mut seen = [false; 3];
    for _ in 0..2000 {
        let value: u8 = *r;
        seen[usize::from(value) - 1] = true;
    }
    assert_eq!(seen, [true; 3]);
}
