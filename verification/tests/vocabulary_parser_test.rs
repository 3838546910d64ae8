use typing_engine::vocabulary_parser::{
    convert_two_backslash_to_single, remove_square_parentheses, split_by_non_escaped_separator,
    VocabularyParseErrorKind,
};
use typing_engine::{parse_vocabulary_entry, NonZeroUsize, SpellString, VocabularyEntry, VocabularyParseError, VocabularySpellElement};

fn sp(s: &str) -> SpellString {
    SpellString::from_str(s).unwrap()
}

#[test]
fn split_by_non_escaped_separator_split_empty_string_correctly() {
    let v = split_by_non_escaped_separator("", ':');
    assert_eq!(v, vec![""]);
}

#[test]
fn split_by_non_escaped_separator_split_non_escaped_correctly() {
    let v = split_by_non_escaped_separator(r"hoge:fuga:jojo", ':');
    assert_eq!(
        v,
        vec![
            String::from("hoge"),
            String::from("fuga"),
            String::from("jojo")
        ]
    );
}

#[test]
fn split_by_non_escaped_separator_escape_backslash_correctly() {
    let v = split_by_non_escaped_separator(r"hoge\::fuga", ':');
    assert_eq!(v, vec![String::from("hoge:"), String::from("fuga")]);
}

#[test]
fn split_by_non_escaped_separator_remain_backslash_correctly() {
    let v = split_by_non_escaped_separator(r"h\o\\ge:fuga", ':');
    assert_eq!(v, vec![String::from(r"h\o\\ge"), String::from("fuga")]);
}

#[test]
fn split_by_non_escaped_separator_split_empty_component_correctly() {
    let v = split_by_non_escaped_separator(r"::", ':');
    assert_eq!(
        v,
        vec![String::from(""), String::from(""), String::from("")]
    );
}

#[test]
fn remove_square_parentheses_recognize_count_correctly() {
    assert_eq!(
        remove_square_parentheses(r"a[123]bc"),
        Ok((
            "a123bc".to_string(),
            vec![
                NonZeroUsize::new(1).unwrap(),
                NonZeroUsize::new(3).unwrap(),
                NonZeroUsize::new(1).unwrap(),
                NonZeroUsize::new(1).unwrap()
            ]
        ))
    );
}

#[test]
fn remove_square_parentheses_recognize_backslashed_backslash_correctly() {
    assert_eq!(
        remove_square_parentheses(r"a\\bc"),
        Ok((
            r"a\bc".to_string(),
            vec![
                NonZeroUsize::new(1).unwrap(),
                NonZeroUsize::new(1).unwrap(),
                NonZeroUsize::new(1).unwrap(),
                NonZeroUsize::new(1).unwrap()
            ]
        ))
    );
}

#[test]
fn remove_square_parentheses_recognize_backslashed_square_parentheses_correctly() {
    assert_eq!(
        remove_square_parentheses(r"a[\[123\]]b\[\]"),
        Ok((
            "a[123]b[]".to_string(),
            vec![
                NonZeroUsize::new(1).unwrap(),
                NonZeroUsize::new(5).unwrap(),
                NonZeroUsize::new(1).unwrap(),
                NonZeroUsize::new(1).unwrap(),
                NonZeroUsize::new(1).unwrap()
            ]
        ))
    );
}

#[test]
fn remove_square_parentheses_remain_backslash_not_following_special_charactors_correctly() {
    assert_eq!(
        remove_square_parentheses(r"a\bc"),
        Ok((
            r"a\bc".to_string(),
            vec![
                NonZeroUsize::new(1).unwrap(),
                NonZeroUsize::new(1).unwrap(),
                NonZeroUsize::new(1).unwrap(),
                NonZeroUsize::new(1).unwrap()
            ]
        ))
    );
}

#[test]
fn remove_square_parentheses_returns_err_when_nesting() {
    assert_eq!(
        remove_square_parentheses(r"[[]]"),
        Err(VocabularyParseError::new(
            VocabularyParseErrorKind::CompoundSymbolMisMatch,
        ))
    );
}

#[test]
fn remove_square_parentheses_returns_err_when_compound_is_closed_without_opened() {
    assert_eq!(
        remove_square_parentheses(r"a]bdf\["),
        Err(VocabularyParseError::new(
            VocabularyParseErrorKind::CompoundSymbolMisMatch,
        ))
    );
}

#[test]
fn remove_square_parentheses_returns_err_when_compound_is_not_closed() {
    assert_eq!(
        remove_square_parentheses(r"a[bdf\["),
        Err(VocabularyParseError::new(
            VocabularyParseErrorKind::CompoundSymbolMisMatch,
        ))
    );
}

#[test]
fn remove_square_parentheses_returns_err_when_compound_is_empty() {
    assert_eq!(
        remove_square_parentheses(r"[]"),
        Err(VocabularyParseError::new(
            VocabularyParseErrorKind::EmptyCompound,
        ))
    );
}

#[test]
fn convert_two_backslash_to_single_convert_two_backslashes_correctly() {
    assert_eq!(convert_two_backslash_to_single(r"\\"), r"\");
}

#[test]
fn convert_two_backslash_to_single_not_convert_third_backslash_with_following_charactor() {
    assert_eq!(convert_two_backslash_to_single(r"\\\a"), r"\\a");
}

#[test]
fn convert_two_backslash_to_single_not_convert_third_backslash_without_following_charactor() {
    assert_eq!(convert_two_backslash_to_single(r"\\\"), r"\\");
}

#[test]
fn convert_two_backslash_to_single_convert_four_backshasled_totwo_backslashes() {
    assert_eq!(convert_two_backslash_to_single(r"\\\\"), r"\\");
}

#[test]
fn parse_vocabulary_entry_success_normal() {
    let result = parse_vocabulary_entry("頑張る:がん,ば,る");

    assert_eq!(
        result,
        Ok(VocabularyEntry::new(
            "頑張る".to_string(),
            vec![
                VocabularySpellElement::Normal(sp("がん")),
                VocabularySpellElement::Normal(sp("ば")),
                VocabularySpellElement::Normal(sp("る"))
            ]
        )
        .unwrap())
    );
}

#[test]
fn parse_vocabulary_entry_success_with_compound() {
    let result =
        parse_vocabulary_entry("[昨日]の敵は[今日]の友:きのう,の,てき,は,きょう,の,とも");

    assert_eq!(
        result,
        Ok(VocabularyEntry::new(
            "昨日の敵は今日の友".to_string(),
            vec![
                VocabularySpellElement::Compound((
                    sp("きのう"),
                    NonZeroUsize::new(2).unwrap()
                )),
                VocabularySpellElement::Normal(sp("の")),
                VocabularySpellElement::Normal(sp("てき")),
                VocabularySpellElement::Normal(sp("は")),
                VocabularySpellElement::Compound((
                    sp("きょう"),
                    NonZeroUsize::new(2).unwrap()
                )),
                VocabularySpellElement::Normal(sp("の")),
                VocabularySpellElement::Normal(sp("とも")),
            ]
        )
        .unwrap())
    );
}

#[test]
fn parse_vocabulary_entry_success_with_escaped_characters() {
    let result = parse_vocabulary_entry(r"\\\::\\,\:");

    assert_eq!(
        result,
        Ok(VocabularyEntry::new(
            r"\:".to_string(),
            vec![
                VocabularySpellElement::Normal(sp(r"\")),
                VocabularySpellElement::Normal(sp(":")),
            ]
        )
        .unwrap())
    );
}

#[test]
fn parse_vocabulary_entry_success_with_escaped_brackets() {
    let result = parse_vocabulary_entry(r"[\[]12:[,1,2");

    assert_eq!(
        result,
        Ok(VocabularyEntry::new(
            "[12".to_string(),
            vec![
                VocabularySpellElement::Normal(sp(r"[")),
                VocabularySpellElement::Normal(sp("1")),
                VocabularySpellElement::Normal(sp("2")),
            ]
        )
        .unwrap())
    );
}

#[test]
fn parse_vocabulary_entry_error_multiple_lines() {
    let result = parse_vocabulary_entry("頑張る:がん,ば,る\n頑張る:がんば,る");

    assert_eq!(
        result,
        Err(VocabularyParseError::new(
            VocabularyParseErrorKind::MultipleLines
        ))
    );
}

#[test]
fn parse_vocabulary_entry_error_components_count_mismatch_no_colon() {
    let result = parse_vocabulary_entry("頑張る");

    assert_eq!(
        result,
        Err(VocabularyParseError::new(
            VocabularyParseErrorKind::ComponentsCountMisMatch
        ))
    );
}

#[test]
fn parse_vocabulary_entry_error_components_count_mismatch_too_many_colons() {
    let result = parse_vocabulary_entry("頑:張:る:がん,ば,る");

    assert_eq!(
        result,
        Err(VocabularyParseError::new(
            VocabularyParseErrorKind::ComponentsCountMisMatch
        ))
    );
}

#[test]
fn parse_vocabulary_entry_error_compound_symbol_mismatch_unclosed() {
    let result = parse_vocabulary_entry("[頑張る:がん,ば,る");

    assert_eq!(
        result,
        Err(VocabularyParseError::new(
            VocabularyParseErrorKind::CompoundSymbolMisMatch
        ))
    );
}

#[test]
fn parse_vocabulary_entry_error_compound_symbol_mismatch_unopened() {
    let result = parse_vocabulary_entry("頑張る]:がん,ば,る");

    assert_eq!(
        result,
        Err(VocabularyParseError::new(
            VocabularyParseErrorKind::CompoundSymbolMisMatch
        ))
    );
}

#[test]
fn parse_vocabulary_entry_error_compound_symbol_mismatch_nested() {
    let result = parse_vocabulary_entry("[[頑張る]]:がん,ば,る");

    assert_eq!(
        result,
        Err(VocabularyParseError::new(
            VocabularyParseErrorKind::CompoundSymbolMisMatch
        ))
    );
}

#[test]
fn parse_vocabulary_entry_error_empty_compound() {
    let result = parse_vocabulary_entry("頑張[]る:がん,ば,る");

    assert_eq!(
        result,
        Err(VocabularyParseError::new(
            VocabularyParseErrorKind::EmptyCompound
        ))
    );
}

#[test]
fn parse_vocabulary_entry_error_view_and_spells_count_mismatch_too_few_spells() {
    let result = parse_vocabulary_entry("頑張る:がん,ば");

    assert_eq!(
        result,
        Err(VocabularyParseError::new(
            VocabularyParseErrorKind::ViewAndSpellsCountMisMatch
        ))
    );
}

#[test]
fn parse_vocabulary_entry_error_view_and_spells_count_mismatch_too_many_spells() {
    let result = parse_vocabulary_entry("頑張る:がん,ば,る,よ");

    assert_eq!(
        result,
        Err(VocabularyParseError::new(
            VocabularyParseErrorKind::ViewAndSpellsCountMisMatch
        ))
    );
}

#[test]
fn parse_vocabulary_entry_error_view_and_spells_count_mismatch_with_compound() {
    let result = parse_vocabulary_entry("[今日]の:きょ,う,の");

    assert_eq!(
        result,
        Err(VocabularyParseError::new(
            VocabularyParseErrorKind::ViewAndSpellsCountMisMatch
        ))
    );
}

#[test]
fn parse_vocabulary_entry_error_invalid_spell_string() {
    let result = parse_vocabulary_entry("頑張る:がん,ば,る三");

    match &result {
        Err(e) => assert!(matches!(e.kind(), VocabularyParseErrorKind::InvalidSpellString(_))),
        _ => panic!("Expected InvalidSpellString error, got {:?}", result),
    }
}
