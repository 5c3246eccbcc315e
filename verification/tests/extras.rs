use mininet::extras::Extras;

#[test]
fn test_extras() {
    let mut e = Extras::default();

    let v = e.get::<u32>();
    assert_eq!(None, v);
    let v = e.get_mut::<u32>();
    assert_eq!(None, v);
    e.insert(5u32);
    let v = e.get::<u32>();
    assert_eq!(Some(&5), v);
    let v = e.take::<u32>().unwrap();
    assert_eq!(5, *v);
}

#[test]
fn extras_replace_and_distinct_types() {
    let mut e = Extras::default();
    e.insert(1u32);
    e.insert(2u32);
    assert_eq!(Some(&2), e.get::<u32>());
    e.insert("text".to_string());
    assert_eq!(Some(&2), e.get::<u32>());
    assert_eq!(Some(&"text".to_string()), e.get::<String>());
    if let Some(v) = e.get_mut::<u32>() {
        *v = 7;
    }
    assert_eq!(Some(&7), e.get::<u32>());
    assert_eq!(7, *e.take::<u32>().unwrap());
    assert_eq!(None, e.get::<u32>());
}
