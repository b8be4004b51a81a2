use ape_dts::meta::col_value::{str_same, ColMap, ColValue, MongoDoc};
use ape_dts::meta::row_data::RowData;
use ape_dts::meta::row_type::RowType;

#[test]
fn values_as_text() {
    assert_eq!(ColValue::Null.to_option_bytes(), None);
    assert_eq!(ColValue::Bool(true).to_option_bytes(), Some(b"true".to_vec()));
    assert_eq!(ColValue::Bool(false).to_option_bytes(), Some(b"false".to_vec()));
    assert_eq!(ColValue::Tiny(-128).to_option_bytes(), Some(b"-128".to_vec()));
    assert_eq!(ColValue::UnsignedTiny(255).to_option_bytes(), Some(b"255".to_vec()));
    assert_eq!(ColValue::Short(-32768).to_option_bytes(), Some(b"-32768".to_vec()));
    assert_eq!(ColValue::UnsignedShort(65535).to_option_bytes(), Some(b"65535".to_vec()));
    assert_eq!(ColValue::Long(-2147483648).to_option_bytes(), Some(b"-2147483648".to_vec()));
    assert_eq!(ColValue::UnsignedLong(4294967295).to_option_bytes(), Some(b"4294967295".to_vec()));
    assert_eq!(ColValue::LongLong(i64::MIN).to_option_bytes(), Some(b"-9223372036854775808".to_vec()));
    assert_eq!(
        ColValue::UnsignedLongLong(u64::MAX).to_option_bytes(),
        Some(b"18446744073709551615".to_vec())
    );
    assert_eq!(ColValue::Decimal("1.50".to_string()).to_option_bytes(), Some(b"1.50".to_vec()));
    assert_eq!(
        ColValue::DateTime("2023-01-02 03:04:05".to_string()).to_option_bytes(),
        Some(b"2023-01-02 03:04:05".to_vec())
    );
    assert_eq!(ColValue::String("abc".to_string()).to_option_bytes(), Some(b"abc".to_vec()));
    assert_eq!(ColValue::Blob(vec![0, 255]).to_option_bytes(), Some(vec![0, 255]));
    let doc = MongoDoc { id: vec![1], raw: vec![9, 8, 7] };
    assert_eq!(ColValue::MongoDoc(doc).to_option_bytes(), Some(vec![9, 8, 7]));
}

#[test]
fn values_compare_by_variant_and_content() {
    assert!(ColValue::Null.equals(&ColValue::Null));
    assert!(ColValue::Long(5).equals(&ColValue::Long(5)));
    assert!(!ColValue::Long(5).equals(&ColValue::Long(6)));
    assert!(!ColValue::Long(5).equals(&ColValue::LongLong(5)));
    assert!(ColValue::String("a".to_string()).equals(&ColValue::String("a".to_string())));
    assert!(!ColValue::String("a".to_string()).equals(&ColValue::Decimal("a".to_string())));
    assert!(ColValue::Blob(vec![1, 2]).equals(&ColValue::Blob(vec![1, 2])));
    assert!(!ColValue::Blob(vec![1, 2]).equals(&ColValue::Blob(vec![1])));
    let a = MongoDoc { id: vec![1], raw: vec![2] };
    let b = MongoDoc { id: vec![1], raw: vec![3] };
    assert!(ColValue::MongoDoc(a.clone()).equals(&ColValue::MongoDoc(a.clone())));
    assert!(!ColValue::MongoDoc(a).equals(&ColValue::MongoDoc(b)));
    assert!(!ColValue::Null.equals(&ColValue::Bool(false)));
}

#[test]
fn col_map_keeps_one_entry_per_name() {
    let mut m = ColMap::new();
    assert_eq!(m.len(), 0);
    assert!(m.get("id").is_none());
    m.insert("id".to_string(), ColValue::Long(1));
    m.insert("name".to_string(), ColValue::String("a".to_string()));
    assert_eq!(m.len(), 2);
    assert_eq!(m.position("name"), Some(1));
    assert!(m.get("id").unwrap().equals(&ColValue::Long(1)));
    m.insert("id".to_string(), ColValue::Long(2));
    assert_eq!(m.len(), 2);
    assert_eq!(m.position("id"), Some(0));
    assert!(m.get("id").unwrap().equals(&ColValue::Long(2)));
    assert!(m.get("ID").is_none());
    let removed = m.remove("id");
    assert!(removed.unwrap().equals(&ColValue::Long(2)));
    assert_eq!(m.len(), 1);
    assert!(m.get("id").is_none());
    assert!(m.remove("id").is_none());
    assert_eq!(m.position("name"), Some(0));
}

#[test]
fn texts_compare() {
    assert!(str_same("abc", "abc"));
    assert!(!str_same("abc", "abd"));
    assert!(str_same("", ""));
}

fn image(id: i32) -> ColMap {
    let mut m = ColMap::new();
    m.insert("id".to_string(), ColValue::Long(id));
    m
}

#[test]
fn row_images_fit_their_kind() {
    let ins = RowData::new_insert("s".to_string(), "t".to_string(), image(1), 4);
    let del = RowData::new_delete("s".to_string(), "t".to_string(), image(1), 4);
    let upd = RowData::new_update("s".to_string(), "t".to_string(), image(1), image(2), 8);
    assert!(ins.has_fitting_images() && del.has_fitting_images() && upd.has_fitting_images());
    assert_eq!(ins.row_type, RowType::Insert);
    assert!(ins.before.is_none() && ins.after.is_some());
    assert!(del.before.is_some() && del.after.is_none());
    assert!(upd.before.is_some() && upd.after.is_some());
    let broken = RowData {
        schema: "s".to_string(),
        tb: "t".to_string(),
        row_type: RowType::Insert,
        before: Some(image(1)),
        after: None,
        data_size: 0,
    };
    assert!(!broken.has_fitting_images());
}

#[test]
fn reverse_undoes_a_change() {
    let ins = RowData::new_insert("s".to_string(), "t".to_string(), image(1), 4);
    let undone = ins.clone().reverse();
    assert_eq!(undone.row_type, RowType::Delete);
    assert!(undone.before.is_some() && undone.after.is_none());
    assert!(undone.has_fitting_images());
    assert_eq!(undone.data_size, 4);
    let again = undone.reverse();
    assert_eq!(again.row_type, RowType::Insert);
    assert!(again.after.unwrap().get("id").unwrap().equals(&ColValue::Long(1)));
    let upd = RowData::new_update("s".to_string(), "t".to_string(), image(1), image(2), 8);
    let back = upd.reverse();
    assert_eq!(back.row_type, RowType::Update);
    assert!(back.before.unwrap().get("id").unwrap().equals(&ColValue::Long(2)));
    assert!(back.after.unwrap().get("id").unwrap().equals(&ColValue::Long(1)));
}
