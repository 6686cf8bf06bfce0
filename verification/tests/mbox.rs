use minicc::utils::Mbox;

#[test]
fn nil_is_nil() {
    let m: Mbox<i32> = Mbox::nil();
    assert!(m.is_nil());
    assert!(m.as_ref().is_none());
}

#[test]
fn new_holds_value() {
    let m = Mbox::new(7);
    assert!(!m.is_nil());
    assert_eq!(m.as_ref(), Some(&7));
    assert_eq!(*m.deref(), 7);
}

#[test]
fn unwrap_gives_back_value() {
    let m = Mbox::new(String::from("x"));
    assert_eq!(m.unwrap(), "x");
}

#[test]
fn as_mut_changes_pointee() {
    let mut m = Mbox::new(1);
    if let Some(v) = m.as_mut() {
        *v = 5;
    }
    assert_eq!(m.as_ref(), Some(&5));
    let mut n: Mbox<i32> = Mbox::nil();
    assert!(n.as_mut().is_none());
}

#[test]
fn deref_mut_changes_pointee() {
    let mut m = Mbox::new(1);
    *m.deref_mut() += 41;
    assert_eq!(*m.deref(), 42);
}

#[test]
fn from_round_trip() {
    let o: Option<Box<i32>> = Some(Box::new(3));
    let m: Mbox<i32> = Mbox::from(o);
    assert_eq!(m.as_ref(), Some(&3));
    let back: Option<Box<i32>> = Option::from(m);
    assert_eq!(back, Some(Box::new(3)));
    let none: Mbox<i32> = Mbox::from(None);
    assert!(none.is_nil());
}

#[test]
fn equality_and_default() {
    assert_eq!(Mbox::new(2), Mbox::new(2));
    assert_ne!(Mbox::new(2), Mbox::nil());
    let d: Mbox<u8> = Mbox::default();
    assert!(d.is_nil());
}
