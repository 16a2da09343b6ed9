use anym::names::{gen_struct_nm, gen_ty_anot, NameSupply, ID_CHAR_SET, SUFFIX_LEN};

#[test]
fn type_parameter_of_the_first_position() {
    assert_eq!(gen_ty_anot(0).to_string(), "T0");
}

#[test]
fn type_parameters_count_in_decimal() {
    assert_eq!(gen_ty_anot(9).to_string(), "T9");
    assert_eq!(gen_ty_anot(10).to_string(), "T10");
    assert_eq!(gen_ty_anot(12).to_string(), "T12");
    assert_eq!(gen_ty_anot(100).to_string(), "T100");
    assert_eq!(gen_ty_anot(9999).to_string(), "T9999");
    assert_eq!(gen_ty_anot(10000).to_string(), "T10000");
    assert_eq!(gen_ty_anot(4096).to_string(), "T4096");
}

#[test]
fn type_parameter_of_the_last_position() {
    assert_eq!(gen_ty_anot(usize::MAX).to_string(), format!("T{}", usize::MAX));
}

#[test]
fn type_parameters_of_different_positions_differ() {
    let names: Vec<String> = (0..200).map(|i| gen_ty_anot(i).to_string()).collect();
    for i in 0..names.len() {
        for j in 0..i {
            assert_ne!(names[i], names[j]);
        }
    }
}

#[test]
fn the_alphabet_has_62_distinct_letters_and_digits() {
    assert_eq!(ID_CHAR_SET.len(), 62);
    assert_eq!(SUFFIX_LEN, 8);
    for (i, c) in ID_CHAR_SET.iter().enumerate() {
        assert!(c.is_ascii_alphanumeric());
        assert!(!ID_CHAR_SET[..i].contains(c));
    }
}

#[test]
fn fixed_supply_gives_its_suffix() {
    let supply = NameSupply::fixed("abcdEF12").unwrap();
    assert_eq!(supply.draw(), "abcdEF12");
    assert_eq!(supply.draw(), "abcdEF12");
    assert_eq!(gen_struct_nm(&supply).to_string(), "__Anym_abcdEF12");
}

#[test]
fn fixed_supply_wants_eight_symbols() {
    assert!(NameSupply::fixed("").is_none());
    assert!(NameSupply::fixed("abcdEF1").is_none());
    assert!(NameSupply::fixed("abcdEF123").is_none());
    assert!(NameSupply::fixed("00000000").is_some());
    assert!(NameSupply::fixed("AZaz0099").is_some());
}

#[test]
fn fixed_supply_wants_letters_and_digits() {
    assert!(NameSupply::fixed("abcd_F12").is_none());
    assert!(NameSupply::fixed("abcd-F12").is_none());
    assert!(NameSupply::fixed("abcd F12").is_none());
    assert!(NameSupply::fixed("abcdEF1/").is_none());
    assert!(NameSupply::fixed("abcdEF1:").is_none());
    assert!(NameSupply::fixed("@bcdEF12").is_none());
    assert!(NameSupply::fixed("[bcdEF12").is_none());
    assert!(NameSupply::fixed("`bcdEF12").is_none());
    assert!(NameSupply::fixed("{bcdEF12").is_none());
    assert!(NameSupply::fixed("abcdEF1\u{e9}").is_none());
    assert!(NameSupply::fixed("\u{e9}bcdEF1").is_none());
}

#[test]
fn random_supply_gives_eight_symbols_of_the_alphabet() {
    let supply = NameSupply::random();
    for _ in 0..50 {
        let suffix = supply.draw();
        assert_eq!(suffix.chars().count(), 8);
        assert!(suffix.chars().all(|c| ID_CHAR_SET.contains(&c)));
    }
}

#[test]
fn made_up_name_is_the_prefix_and_the_suffix() {
    let name = gen_struct_nm(&NameSupply::random()).to_string();
    assert_eq!(name.len(), 15);
    assert!(name.starts_with("__Anym_"));
    assert!(name[7..].chars().all(|c| ID_CHAR_SET.contains(&c)));
}

#[test]
fn made_up_names_differ_from_draw_to_draw() {
    let supply = NameSupply::random();
    let first = gen_struct_nm(&supply).to_string();
    let second = gen_struct_nm(&supply).to_string();
    assert_ne!(first, second);
}
