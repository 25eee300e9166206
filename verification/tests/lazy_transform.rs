use rustyrts::lazy_transform::LazyTransform;

#[test]
fn transformed_once() {
    let mut lazy: LazyTransform<u32, String> = LazyTransform::new(5);
    assert_eq!(*lazy.get(), 5);
    assert_eq!(lazy.transform(|x| format!("v{}", x * 2)), "v10");
    assert_eq!(lazy.transform(|x| format!("w{}", x)), "v10");
}
