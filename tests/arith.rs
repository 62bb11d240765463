use infix_parser::add;

#[test]
fn it_works() {
    let result = add(2, 2);
    assert_eq!(result, 4);
}

#[test]
fn add_negative() {
    assert_eq!(add(-5, 3), -2);
}

#[test]
fn add_reaches_the_bounds() {
    assert_eq!(add(i32::MAX - 1, 1), i32::MAX);
    assert_eq!(add(i32::MIN + 1, -1), i32::MIN);
}
