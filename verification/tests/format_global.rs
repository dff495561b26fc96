use noir_tooling::format_source;

fn assert_format(src: &str, expected: &str) {
    let formatted = format_source(src, 100).expect("the source is a global declaration");
    assert_eq!(formatted, expected);
    let again = format_source(&formatted, 100).expect("formatted text is a global declaration");
    assert_eq!(again, formatted);
}

#[test]
fn format_global_without_type() {
    let src = " pub  global  x  =  1  ; ";
    let expected = "pub global x = 1;\n";
    assert_format(src, expected);
}

#[test]
fn format_global_with_type() {
    let src = " pub  global  x  :  Field  =  1  ; ";
    let expected = "pub global x: Field = 1;\n";
    assert_format(src, expected);
}

#[test]
fn format_comptime_global() {
    let src = " pub  comptime  global  x  :  Field  =  1  ; ";
    let expected = "pub comptime global x: Field = 1;\n";
    assert_format(src, expected);
}

#[test]
fn format_comptime_mut_global() {
    let src = " pub  comptime  mut  global  x  :  Field  =  1  ; ";
    let expected = "pub comptime mut global x: Field = 1;\n";
    assert_format(src, expected);
}

#[test]
fn format_global_with_attributes() {
    let src = " #[abi ( foo ) ]  global  x  =  1  ; ";
    let expected = "#[abi(foo)]
global x = 1;
";
    assert_format(src, expected);
}
