use beam::{parse, MetaKeyValue, MetaValue, Pid, UnsortedSet};

#[test]
fn betterlogger_test_parse() {
    let msg = "Hello {name} {last_name} {name}!";

    let mut values = UnsortedSet::<MetaKeyValue, 16>::new();
    values.insert(MetaKeyValue {
        key: String::from("name"),
        value: MetaValue::StaticStr("John"),
    });

    let parsed = parse(msg, &values);
    assert_eq!(parsed, "Hello John!");
}

#[test]
fn logger_test_parse() {
    let msg = "Hello {name} {last_name} {name}!";

    let mut values = UnsortedSet::<MetaKeyValue, 16>::new();
    values.insert(MetaKeyValue {
        key: String::from("name"),
        value: MetaValue::StaticStr("John"),
    });

    let parsed = parse(msg, &values);
    assert_eq!(parsed, "Hello John!");
}

#[test]
fn parse_escapes_and_numbers() {
    let mut values = UnsortedSet::<MetaKeyValue, 4>::new();
    values.insert(MetaKeyValue { key: String::from("n"), value: MetaValue::Signed(-42) });
    values.insert(MetaKeyValue { key: String::from("p"), value: MetaValue::Pid(Pid(7)) });
    assert_eq!(parse("{{x}} {n} {p}", &values), "{x} -42 7");
    assert_eq!(parse("open {n", &values), "open ");
}
