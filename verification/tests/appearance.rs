use acroform::appearance::escape_pdf_string;
use acroform::appearance::generate_text_appearance_ops;

#[test]
fn escape_leaves_plain_text() {
    assert_eq!(escape_pdf_string(""), "");
    assert_eq!(escape_pdf_string("NEW_VALUE caf\u{e9} \u{1F600}"), "NEW_VALUE caf\u{e9} \u{1F600}");
}

#[test]
fn escape_each_special_character() {
    assert_eq!(escape_pdf_string("("), "\\(");
    assert_eq!(escape_pdf_string(")"), "\\)");
    assert_eq!(escape_pdf_string("\\"), "\\\\");
    assert_eq!(escape_pdf_string("\r"), "\\r");
    assert_eq!(escape_pdf_string("\n"), "\\n");
    assert_eq!(escape_pdf_string("\t"), "\\t");
}

#[test]
fn escape_in_context() {
    assert_eq!(escape_pdf_string("Test (with) special\\characters"), "Test \\(with\\) special\\\\characters");
    assert_eq!(escape_pdf_string("a\r\nb\tc"), "a\\r\\nb\\tc");
}

#[test]
fn text_appearance_operators() {
    let content = generate_text_appearance_ops("A (b)", "100", "20.5", "2", "5.25", "10");
    let expected = "/Tx BMC\nq\n0 0 100 20.5 re\nW\nn\nBT\n/Helv 10 Tf\n0 g\n2 5.25 Td\n(A \\(b\\)) Tj\nET\nQ\nEMC\n";
    assert_eq!(content, expected.as_bytes());
}

#[test]
fn text_appearance_of_text_outside_ascii_is_utf8() {
    let content = generate_text_appearance_ops("\u{e9}", "1", "1", "0", "0", "10");
    let expected = "/Tx BMC\nq\n0 0 1 1 re\nW\nn\nBT\n/Helv 10 Tf\n0 g\n0 0 Td\n(\u{e9}) Tj\nET\nQ\nEMC\n";
    assert_eq!(content, expected.as_bytes());
}
