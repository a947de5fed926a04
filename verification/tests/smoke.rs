#[test]
fn dummy() {}

#[test]
#[should_panic = "dummy"]
fn panic_dummy() {
    panic!("dummy")
}
