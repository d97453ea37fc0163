use piston_meta::{
    build_name_table, classify, convert_line, convert_mappings, MappingLine, NameTable,
};

fn foo_table() -> NameTable {
    build_name_table("com.example.Foo -> x:\n")
}

#[test]
fn field_line() {
    assert_eq!(convert_line("    int count -> a", &foo_table()), "\ta count\n");
    assert_eq!(
        convert_mappings("com.example.Foo -> x:\n    int count -> a\n"),
        "x com/example/Foo\n\ta count\n"
    );
}

#[test]
fn method_without_parameters() {
    assert_eq!(convert_line("    void tick() -> b", &foo_table()), "\tb ()V tick\n");
}

#[test]
fn method_with_parameter_and_known_class_return() {
    assert_eq!(
        convert_line("    com.example.Foo get(int) -> c", &foo_table()),
        "\tc (I)Lx; get\n"
    );
    assert_eq!(
        convert_mappings("com.example.Foo -> x:\n    com.example.Foo get(int) -> c\n"),
        "x com/example/Foo\n\tc (I)Lx; get\n"
    );
}

#[test]
fn class_header_line() {
    assert_eq!(convert_line("com.example.Foo -> x:", &NameTable::new()), "x com/example/Foo\n");
    assert_eq!(convert_mappings("com.example.Foo -> x:"), "x com/example/Foo\n");
}

#[test]
fn forward_reference_is_resolved() {
    let text = "com.example.A -> a:\n    void use(com.example.B) -> m\ncom.example.B -> b:\n";
    assert_eq!(
        convert_mappings(text),
        "a com/example/A\n\tm (Lb;)V use\nb com/example/B\n"
    );
}

#[test]
fn comments_and_lines_without_separator_leave_no_trace() {
    let text = "# a.B -> q:\nno separator here\n\ncom.example.Foo -> x:\n# note\n    int count\n    int count -> a\n";
    assert_eq!(convert_mappings(text), "x com/example/Foo\n\ta count\n");
    let table = build_name_table(text);
    assert_eq!(table.get("La/B;"), None);
    assert_eq!(table.get("Lcom/example/Foo;"), Some("x".to_string()));
    assert_eq!(convert_line("# a.B -> q:", &table), "");
    assert_eq!(convert_line("a.B - > q:", &table), "");
    assert_eq!(convert_line("", &table), "");
}

#[test]
fn member_lines_add_nothing_to_the_name_table() {
    let table = build_name_table("    a.B f -> q:\n");
    assert_eq!(table.get("La/B;"), None);
    assert_eq!(table.get("L    a/B f;"), None);
}

#[test]
fn duplicate_class_takes_the_later_name() {
    let text = "a.B -> x:\na.B -> y:\n    a.B f() -> m\n";
    assert_eq!(convert_mappings(text), "x a/B\ny a/B\n\tm ()Ly; f\n");
    assert_eq!(build_name_table(text).get("La/B;"), Some("y".to_string()));
}

#[test]
fn qualified_obfuscated_class_name() {
    let text = "a.B -> p.q.C:\n    a.B f(a.B[]) -> m\n";
    assert_eq!(convert_mappings(text), "p/q/C a/B\n\tm ([Lp/q/C;)Lp/q/C; f\n");
}

#[test]
fn line_range_is_dropped_from_the_return_type() {
    let table = NameTable::new();
    assert_eq!(
        convert_line("    1:5:void run(java.lang.String[],int) -> r", &table),
        "\tr ([Ljava/lang/String;I)V run\n"
    );
    assert_eq!(
        convert_line("    12:12:int[][] grid(long,double[]) -> g", &table),
        "\tg (J[D)[[I grid\n"
    );
}

#[test]
fn several_parameters_are_joined_without_separator() {
    assert_eq!(
        convert_line(
            "    boolean test(com.example.Foo,byte,short[],char,float) -> t",
            &foo_table()
        ),
        "\tt (Lx;B[SCF)Z test\n"
    );
}

#[test]
fn empty_parameter_token_is_an_empty_class_name() {
    assert_eq!(convert_line("    void f(int,) -> a", &NameTable::new()), "\ta (IL;)V f\n");
}

#[test]
fn field_name_is_kept_verbatim() {
    assert_eq!(
        convert_line("    java.util.List some.odd(name -> f", &NameTable::new()),
        "\tf some.odd(name\n"
    );
}

#[test]
fn member_with_one_word_is_skipped() {
    assert_eq!(convert_line("    count -> a", &NameTable::new()), "");
    assert_eq!(convert_line("     -> a", &NameTable::new()), "");
}

#[test]
fn more_than_four_spaces_is_still_a_member() {
    assert_eq!(convert_line("      int count -> a", &NameTable::new()), "\ta count\n");
}

#[test]
fn three_spaces_is_a_class_header() {
    assert_eq!(convert_line("   a.B -> x:", &NameTable::new()), "x    a/B\n");
}

#[test]
fn carriage_returns_before_line_feeds_are_dropped() {
    let text = "com.example.Foo -> x:\r\n    int count -> a\r\n    void tick() -> b\r\n";
    assert_eq!(convert_mappings(text), "x com/example/Foo\n\ta count\n\tb ()V tick\n");
}

#[test]
fn last_line_needs_no_line_feed() {
    assert_eq!(
        convert_mappings("com.example.Foo -> x:\n    int count -> a"),
        "x com/example/Foo\n\ta count\n"
    );
}

#[test]
fn white_space_of_any_kind_separates_words() {
    let table = NameTable::new();
    assert_eq!(convert_line("    int\tcount -> a", &table), "\ta count\n");
    assert_eq!(convert_line("    int\u{3000}count -> a", &table), "\ta count\n");
    assert_eq!(convert_line("    int count extra -> a  ", &table), "\ta count\n");
}

#[test]
fn text_after_a_second_separator_is_ignored() {
    assert_eq!(convert_line("    int count -> a -> b", &NameTable::new()), "\ta count\n");
    assert_eq!(convert_line("a.B -> x -> y:", &NameTable::new()), "x a/B\n");
}

#[test]
fn characters_outside_ascii_pass_through() {
    assert_eq!(convert_line("    int naïve -> é", &NameTable::new()), "\té naïve\n");
    assert_eq!(convert_line("ü.Ö -> ß:", &NameTable::new()), "ß ü/Ö\n");
}

#[test]
fn header_naming_a_primitive_is_skipped() {
    assert_eq!(convert_mappings("int -> x:\n"), "");
    assert_eq!(convert_mappings("a.B -> int:\n"), "");
    assert_eq!(build_name_table("int -> x:\n").get("I"), None);
}

#[test]
fn empty_text_gives_empty_text() {
    assert_eq!(convert_mappings(""), "");
    assert_eq!(convert_mappings("\n\n"), "");
}

#[test]
fn output_keeps_the_order_of_the_input() {
    let text = "\
# compiled mapping
com.example.Foo -> x:
    int count -> a
    1:3:void <init>() -> <init>
    4:9:com.example.Bar make(com.example.Foo,int[]) -> b
com.example.Bar -> y:
    com.example.Foo[] all -> a
    10:11:java.lang.String name() -> c
";
    let expected = "\
x com/example/Foo
\ta count
\t<init> ()V <init>
\tb (Lx;[I)Ly; make
y com/example/Bar
\ta all
\tc ()Ljava/lang/String; name
";
    assert_eq!(convert_mappings(text), expected);
}

#[test]
fn silent_line_can_be_taken_out() {
    let with = "a.B -> x:\n# c.D -> y:\n    c.D f(a.B) -> m\nnothing\n";
    let without = "a.B -> x:\n    c.D f(a.B) -> m\n";
    assert_eq!(convert_mappings(with), convert_mappings(without));
    assert_eq!(convert_mappings(without), "x a/B\n\tm (Lx;)Lc/D; f\n");
}

#[test]
fn lines_are_classified_by_shape() {
    assert_eq!(classify("# note"), MappingLine::Comment);
    assert_eq!(classify("#    int count -> a"), MappingLine::Comment);
    assert_eq!(classify("com.example.Foo -> x:"), MappingLine::ClassHeader);
    assert_eq!(classify("    int count -> a"), MappingLine::FieldMember);
    assert_eq!(classify("    void tick() -> b"), MappingLine::MethodMember);
    assert_eq!(classify("    1:2:void run(int,long) -> c"), MappingLine::MethodMember);
    assert_eq!(classify("    void tick( -> b"), MappingLine::FieldMember);
    assert_eq!(classify("    void tick) -> b"), MappingLine::FieldMember);
    assert_eq!(classify("    count -> a"), MappingLine::Skipped);
    assert_eq!(classify("    int count"), MappingLine::Skipped);
    assert_eq!(classify("com.example.Foo"), MappingLine::Skipped);
    assert_eq!(classify("com.example.Foo->x:"), MappingLine::Skipped);
    assert_eq!(classify(""), MappingLine::Skipped);
    assert_eq!(classify("int -> x:"), MappingLine::Skipped);
}

#[test]
fn brackets_in_any_order_make_a_method() {
    assert_eq!(convert_line("    int a)b(int -> m", &NameTable::new()), "\tm (I)I a)b\n");
    assert_eq!(convert_line("    int f(int)(long) -> m", &NameTable::new()), "\tm (J)I f\n");
}

#[test]
fn obfuscated_class_name_is_cut_at_the_first_colon() {
    let text = "a.B -> x:y:\n    a.B f -> m\n    void g(a.B) -> n\n";
    assert_eq!(convert_mappings(text), "x a/B\n\tm f\n\tn (Lx;)V g\n");
}
