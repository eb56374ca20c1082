use jotty_core::text::owned;

#[test]
fn scaffold_compiles() {
    assert_eq!(2 + 2, 4);
    assert_eq!(owned("x"), "x");
}
