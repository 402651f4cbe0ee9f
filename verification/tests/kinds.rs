use fin::cstgen::{Lang, SyntaxKind};

#[test]
fn raw_numbers_follow_declaration_order() {
    assert_eq!(Lang::kind_to_raw(SyntaxKind::Comment), 0);
    assert_eq!(Lang::kind_to_raw(SyntaxKind::Ident), 1);
    assert_eq!(Lang::kind_to_raw(SyntaxKind::Eof), 42);
    assert_eq!(Lang::kind_to_raw(SyntaxKind::File), 43);
    assert_eq!(Lang::kind_to_raw(SyntaxKind::Name), 71);
    assert_eq!(Lang::kind_from_raw(0), SyntaxKind::Comment);
    assert_eq!(Lang::kind_from_raw(40), SyntaxKind::Unknown);
    assert_eq!(Lang::kind_from_raw(71), SyntaxKind::Name);
}

#[test]
fn raw_numbers_round_trip() {
    for raw in 0u16..72 {
        let kind = Lang::kind_from_raw(raw);
        assert_eq!(Lang::kind_to_raw(kind), raw);
        assert_eq!(SyntaxKind::from_raw(raw), Some(kind));
        assert_eq!(kind.to_raw(), raw);
    }
    assert_eq!(SyntaxKind::from_raw(72), None);
}
