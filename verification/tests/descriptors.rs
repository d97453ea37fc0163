use piston_meta::{encode_type, remap_file_path, remove_brackets, NameTable};

const PRIMITIVES: [(&str, &str); 9] = [
    ("int", "I"),
    ("double", "D"),
    ("boolean", "Z"),
    ("float", "F"),
    ("long", "J"),
    ("byte", "B"),
    ("short", "S"),
    ("char", "C"),
    ("void", "V"),
];

#[test]
fn primitive_keywords_have_their_letters() {
    let table = NameTable::new();
    for (keyword, letter) in PRIMITIVES {
        assert_eq!(remap_file_path(keyword), letter);
        assert_eq!(encode_type(keyword, &table), letter);
    }
}

#[test]
fn other_tokens_are_wrapped() {
    let table = NameTable::new();
    assert_eq!(remap_file_path("java.lang.String"), "Ljava/lang/String;");
    assert_eq!(encode_type("java.lang.String", &table), "Ljava/lang/String;");
    assert_eq!(encode_type("Foo", &table), "LFoo;");
    assert_eq!(encode_type("", &table), "L;");
}

#[test]
fn keyword_match_is_exact() {
    let table = NameTable::new();
    assert_eq!(encode_type("Int", &table), "LInt;");
    assert_eq!(encode_type("integer", &table), "Linteger;");
    assert_eq!(encode_type("in", &table), "Lin;");
    assert_eq!(encode_type(" int", &table), "L int;");
    assert_eq!(encode_type("VOID", &table), "LVOID;");
    assert_eq!(remap_file_path("chars"), "Lchars;");
}

#[test]
fn array_markers_become_a_prefix() {
    let table = NameTable::new();
    for n in 0..=3usize {
        for (keyword, letter) in PRIMITIVES {
            let token = format!("{}{}", keyword, "[]".repeat(n));
            assert_eq!(encode_type(&token, &table), format!("{}{}", "[".repeat(n), letter));
        }
        let token = format!("java.lang.String{}", "[]".repeat(n));
        assert_eq!(
            encode_type(&token, &table),
            format!("{}Ljava/lang/String;", "[".repeat(n))
        );
    }
    assert_eq!(encode_type("int[][]", &table), "[[I");
    assert_eq!(encode_type("a.B[]", &table), "[La/B;");
}

#[test]
fn remove_brackets_strips_and_counts() {
    assert_eq!(remove_brackets("int"), ("int", 0));
    assert_eq!(remove_brackets("int[]"), ("int", 1));
    assert_eq!(remove_brackets("a.B[][][]"), ("a.B", 3));
    assert_eq!(remove_brackets("[]"), ("", 1));
    assert_eq!(remove_brackets(""), ("", 0));
    assert_eq!(remove_brackets("a[]b"), ("a[]b", 0));
    assert_eq!(remove_brackets("a[ ]"), ("a[ ]", 0));
    assert_eq!(remove_brackets("a]"), ("a]", 0));
    assert_eq!(remove_brackets("é[]"), ("é", 1));
}

#[test]
fn remap_file_path_keeps_array_markers() {
    assert_eq!(remap_file_path("int[]"), "Lint[];");
}

#[test]
fn known_class_is_replaced_by_its_obfuscated_name() {
    let mut table = NameTable::new();
    table.insert("Lcom/example/Foo;", "x");
    assert_eq!(encode_type("com.example.Foo", &table), "Lx;");
    assert_eq!(encode_type("com.example.Foo[]", &table), "[Lx;");
    assert_eq!(encode_type("com.example.Foo[][]", &table), "[[Lx;");
    assert_eq!(encode_type("com.example.Bar", &table), "Lcom/example/Bar;");
}

#[test]
fn qualified_obfuscated_name_becomes_a_path() {
    let mut table = NameTable::new();
    table.insert("La/B;", "p.q.C");
    assert_eq!(encode_type("a.B", &table), "Lp/q/C;");
    assert_eq!(encode_type("a.B[]", &table), "[Lp/q/C;");
}

#[test]
fn primitive_is_never_looked_up() {
    let mut table = NameTable::new();
    table.insert("I", "zz");
    table.insert("Lint;", "yy");
    assert_eq!(encode_type("int", &table), "I");
    assert_eq!(encode_type("int[]", &table), "[I");
}

#[test]
fn name_table_later_entry_wins() {
    let mut table = NameTable::new();
    assert_eq!(table.get("La;"), None);
    table.insert("La;", "x");
    table.insert("Lb;", "y");
    assert_eq!(table.get("La;"), Some("x".to_string()));
    table.insert("La;", "z");
    assert_eq!(table.get("La;"), Some("z".to_string()));
    assert_eq!(table.get("Lb;"), Some("y".to_string()));
    assert_eq!(table.get("Lc;"), None);
}
