//! The conversion of a deobfuscation mapping into descriptor-based mapping
//! text: a first pass collects the class names, a second one rewrites the
//! text line by line.

use crate::descriptor::{
    base_descriptor, descriptor, dots_to_slashes, encode_chars, ends_with_marker, internal_name,
    lemma_internal_name, lemma_plain_token, lemma_unknown_token, primitive_code,
    primitive_letter, slashed, wrap, wrapped_path, NameTable,
};
use crate::text::{
    append_chars, chars_of, contains_char, pieces, split_on, split_words,
    string_of, sub_chars, trim, trimmed, views, words,
};
use vstd::prelude::*;
use vstd::string::*;

verus! {

/// Whether the separator ` -> ` stands in `s` at index `i`.
pub open spec fn sep_at(s: Seq<char>, i: int) -> bool {
    &&& 0 <= i
    &&& i + 4 <= s.len()
    &&& s[i] == ' '
    &&& s[i + 1] == '-'
    &&& s[i + 2] == '>'
    &&& s[i + 3] == ' '
}

/// The index of the first separator in `s` at or after `from`; the length of
/// `s` where there is none.
pub open spec fn sep_from(s: Seq<char>, from: int) -> int
    decreases s.len() - from,
{
    if from < 0 || from + 4 > s.len() {
        s.len() as int
    } else if sep_at(s, from) {
        from
    } else {
        sep_from(s, from + 1)
    }
}

/// Whether `line` holds the separator.
pub open spec fn has_sep(line: Seq<char>) -> bool {
    sep_from(line, 0) < line.len()
}

/// The text before the first separator of `line`.
pub open spec fn left_of_sep(line: Seq<char>) -> Seq<char> {
    line.subrange(0, sep_from(line, 0))
}

/// The text between the first separator of `line` and the next one, or the
/// end of the line.
pub open spec fn right_of_sep(line: Seq<char>) -> Seq<char> {
    let start = sep_from(line, 0) + 4;
    line.subrange(start, sep_from(line, start))
}

/// `s` without a carriage return at its end.
pub open spec fn strip_cr(s: Seq<char>) -> Seq<char> {
    if s.len() > 0 && s.last() == '\r' {
        s.drop_last()
    } else {
        s
    }
}

/// The lines of `s`. A line ends at a line feed, which is dropped together
/// with a carriage return just before it; what follows the last line feed is
/// a line too unless it is empty.
pub open spec fn lines(s: Seq<char>) -> Seq<Seq<char>> {
    let p = pieces(s, '\n');
    let ended = Seq::new((p.len() - 1) as nat, |i: int| strip_cr(p[i]));
    if p.last().len() == 0 {
        ended
    } else {
        ended.push(p.last())
    }
}

/// A comment line starts with `#`.
pub open spec fn is_comment(line: Seq<char>) -> bool {
    line.len() > 0 && line[0] == '#'
}

/// A member line starts with four spaces.
pub open spec fn is_member(line: Seq<char>) -> bool {
    &&& line.len() >= 4
    &&& line[0] == ' '
    &&& line[1] == ' '
    &&& line[2] == ' '
    &&& line[3] == ' '
}

/// The deobfuscated class name of a header line.
pub open spec fn header_deobf(line: Seq<char>) -> Seq<char> {
    left_of_sep(line)
}

/// The obfuscated class name that a header line puts into the name table:
/// the text after the separator, cut at its first colon.
pub open spec fn header_obf(line: Seq<char>) -> Seq<char> {
    pieces(right_of_sep(line), ':').first()
}

/// The obfuscated class name that a header line shows in the output: the
/// text after the separator without the white space around it, cut at its
/// first colon.
pub open spec fn header_shown_obf(line: Seq<char>) -> Seq<char> {
    pieces(trim(right_of_sep(line)), ':').first()
}

/// A class header is neither a comment nor a member line, holds the
/// separator, and names no primitive on either side.
pub open spec fn is_class_header(line: Seq<char>) -> bool {
    &&& !is_comment(line)
    &&& !is_member(line)
    &&& has_sep(line)
    &&& primitive_code(header_deobf(line)) is None
    &&& primitive_code(header_shown_obf(line)) is None
}

/// The key under which a header line's class stands in the name table.
pub open spec fn header_key(line: Seq<char>) -> Seq<char> {
    base_descriptor(header_deobf(line))
}

/// The name table after `line`: a class header adds its pair, any other
/// line nothing.
pub open spec fn table_step(table: Map<Seq<char>, Seq<char>>, line: Seq<char>) -> Map<
    Seq<char>,
    Seq<char>,
> {
    if is_class_header(line) {
        table.insert(header_key(line), header_obf(line))
    } else {
        table
    }
}

/// The name table of a text: the pairs of its class headers, a later header
/// replacing an earlier one of the same class.
pub open spec fn name_table(ls: Seq<Seq<char>>) -> Map<Seq<char>, Seq<char>>
    decreases ls.len(),
{
    if ls.len() == 0 {
        Map::empty()
    } else {
        table_step(name_table(ls.drop_last()), ls.last())
    }
}

/// The descriptors of `tokens` under `table`, one after the other.
pub open spec fn joined(tokens: Seq<Seq<char>>, table: Map<Seq<char>, Seq<char>>) -> Seq<char>
    decreases tokens.len(),
{
    if tokens.len() == 0 {
        Seq::empty()
    } else {
        joined(tokens.drop_last(), table) + descriptor(tokens.last(), table)
    }
}

/// The descriptors of a parameter list: nothing for the empty list, else
/// those of the tokens between its commas.
pub open spec fn params(args: Seq<char>, table: Map<Seq<char>, Seq<char>>) -> Seq<char> {
    if args.len() == 0 {
        Seq::empty()
    } else {
        joined(pieces(args, ','), table)
    }
}

/// A member's second word names a method where it holds both brackets.
pub open spec fn is_method_name(name: Seq<char>) -> bool {
    name.contains('(') && name.contains(')')
}

/// The name of a method: what stands before the first `(`.
pub open spec fn method_name(word: Seq<char>) -> Seq<char> {
    pieces(word, '(').first()
}

/// The parameter list of a method: what follows the last `(`, up to the
/// next `)`.
pub open spec fn method_args(word: Seq<char>) -> Seq<char> {
    pieces(pieces(word, '(').last(), ')').first()
}

/// The type token of a member: its first word without a line range, which
/// ends at the word's last colon.
pub open spec fn type_token(word: Seq<char>) -> Seq<char> {
    pieces(word, ':').last()
}

/// The output line of a method.
pub open spec fn method_text(
    obf: Seq<char>,
    ty: Seq<char>,
    word: Seq<char>,
    table: Map<Seq<char>, Seq<char>>,
) -> Seq<char> {
    seq!['\t'] + obf + seq![' ', '('] + params(method_args(word), table) + seq![')'] + descriptor(
        ty,
        table,
    ) + seq![' '] + method_name(word) + seq!['\n']
}

/// The output line of a field.
pub open spec fn field_text(obf: Seq<char>, name: Seq<char>) -> Seq<char> {
    seq!['\t'] + obf + seq![' '] + name + seq!['\n']
}

/// The kinds of line in a mapping text.
#[derive(Debug, Clone, Copy, PartialEq, Eq, Structural)]
pub enum MappingLine {
    /// A line that starts with `#`.
    Comment,
    /// A class with its deobfuscated and its obfuscated name.
    ClassHeader,
    /// A member whose name carries a parameter list.
    MethodMember,
    /// Any other member.
    FieldMember,
    /// A line of none of these shapes.
    Skipped,
}

/// The first word of a member line: its type, a line range before it.
pub open spec fn member_type(line: Seq<char>) -> Seq<char> {
    words(left_of_sep(line))[0]
}

/// The second word of a member line: its name, with the parameter list
/// where it is a method.
pub open spec fn member_name(line: Seq<char>) -> Seq<char> {
    words(left_of_sep(line))[1]
}

/// The obfuscated name of a member line: the text after the separator
/// without the white space around it.
pub open spec fn member_obf(line: Seq<char>) -> Seq<char> {
    trim(right_of_sep(line))
}

/// The kind of `line`. A comment is one whatever else it holds; a line
/// without the separator is skipped; a member needs two words before the
/// separator, and is a method where the second holds both brackets.
pub open spec fn line_kind(line: Seq<char>) -> MappingLine {
    if is_comment(line) {
        MappingLine::Comment
    } else if !has_sep(line) {
        MappingLine::Skipped
    } else if is_member(line) {
        if words(left_of_sep(line)).len() < 2 {
            MappingLine::Skipped
        } else if is_method_name(member_name(line)) {
            MappingLine::MethodMember
        } else {
            MappingLine::FieldMember
        }
    } else if is_class_header(line) {
        MappingLine::ClassHeader
    } else {
        MappingLine::Skipped
    }
}

/// The output line of a class header: both names as paths.
pub open spec fn class_text(line: Seq<char>) -> Seq<char> {
    dots_to_slashes(header_shown_obf(line)) + seq![' '] + dots_to_slashes(header_deobf(line))
        + seq!['\n']
}

/// What `line` contributes to the output under `table`: one line ending in
/// a line feed for a class header, a method or a field, else nothing.
pub open spec fn line_text(line: Seq<char>, table: Map<Seq<char>, Seq<char>>) -> Seq<char> {
    match line_kind(line) {
        MappingLine::Comment => Seq::empty(),
        MappingLine::Skipped => Seq::empty(),
        MappingLine::ClassHeader => class_text(line),
        MappingLine::MethodMember => method_text(
            member_obf(line),
            type_token(member_type(line)),
            member_name(line),
            table,
        ),
        MappingLine::FieldMember => field_text(member_obf(line), member_name(line)),
    }
}

/// The output of the lines `ls` under `table`, in the order of the lines.
pub open spec fn emitted(ls: Seq<Seq<char>>, table: Map<Seq<char>, Seq<char>>) -> Seq<char>
    decreases ls.len(),
{
    if ls.len() == 0 {
        Seq::empty()
    } else {
        emitted(ls.drop_last(), table) + line_text(ls.last(), table)
    }
}

/// The converted text: every line rewritten under the name table of the
/// whole text.
pub open spec fn converted(s: Seq<char>) -> Seq<char> {
    emitted(lines(s), name_table(lines(s)))
}

/// The index of the first separator in `s` at or after `from`.
pub fn find_sep(s: &Vec<char>, from: usize) -> (i: usize)
    ensures
        i == sep_from(s@, from as int),
        i <= s.len(),
        from <= s.len() ==> from <= i,
        i < s.len() ==> i + 4 <= s.len(),
{
    let n: usize = s.len();
    if from > n {
        return n;
    }
    let mut i: usize = from;
    while n - i >= 4
        invariant
            from <= i <= n == s.len(),
            sep_from(s@, from as int) == sep_from(s@, i as int),
        decreases n - i,
    {
        if s[i] == ' ' && s[i + 1] == '-' && s[i + 2] == '>' && s[i + 3] == ' ' {
            return i;
        }
        i += 1;
    }
    n
}

/// The two sides of the first separator of `line`, where it holds one.
pub fn sides(line: &Vec<char>) -> (r: Option<(Vec<char>, Vec<char>)>)
    ensures
        r is Some == has_sep(line@),
        r matches Some(p) ==> p.0@ == left_of_sep(line@) && p.1@ == right_of_sep(line@),
{
    let i = find_sep(line, 0);
    if i >= line.len() {
        return None;
    }
    let j = find_sep(line, i + 4);
    Some((sub_chars(line, 0, i), sub_chars(line, i + 4, j)))
}

/// Cuts `s` into its lines.
pub fn split_lines(s: &Vec<char>) -> (r: Vec<Vec<char>>)
    ensures
        views(r@) == lines(s@),
{
    let mut p = split_on(s, '\n');
    let ghost all = views(p@);
    let last = p.pop().unwrap();
    assert(views(p@) =~= all.drop_last());
    let mut out: Vec<Vec<char>> = Vec::new();
    let mut i: usize = 0;
    while i < p.len()
        invariant
            i <= p.len(),
            p.len() == all.len() - 1,
            views(p@) == all.drop_last(),
            views(out@) == Seq::new(i as nat, |k: int| strip_cr(all[k])),
        decreases p.len() - i,
    {
        let l = &p[i];
        let n: usize = l.len();
        assert(l@ == views(p@)[i as int]);
        let line = if n > 0 && l[n - 1] == '\r' {
            sub_chars(l, 0, n - 1)
        } else {
            sub_chars(l, 0, n)
        };
        assert(line@ =~= strip_cr(all[i as int]));
        let ghost before = views(out@);
        out.push(line);
        assert(views(out@) =~= before.push(line@));
        assert(views(out@) =~= Seq::new((i + 1) as nat, |k: int| strip_cr(all[k])));
        i += 1;
    }
    if last.len() > 0 {
        let ghost before = views(out@);
        out.push(last);
        assert(views(out@) =~= before.push(last@));
    }
    out
}

/// Whether `line` is a comment.
pub fn starts_comment(line: &Vec<char>) -> (r: bool)
    ensures
        r == is_comment(line@),
{
    line.len() > 0 && line[0] == '#'
}

/// Whether `line` is a member line.
pub fn starts_member(line: &Vec<char>) -> (r: bool)
    ensures
        r == is_member(line@),
{
    line.len() >= 4 && line[0] == ' ' && line[1] == ' ' && line[2] == ' ' && line[3] == ' '
}

/// The first of the pieces into which `c` cuts `s`.
pub fn first_piece(s: &Vec<char>, c: char) -> (r: Vec<char>)
    ensures
        r@ == pieces(s@, c).first(),
{
    let p = split_on(s, c);
    let first = &p[0];
    assert(first@ == views(p@)[0]);
    let r = sub_chars(first, 0, first.len());
    assert(r@ =~= first@);
    r
}

/// The last of the pieces into which `c` cuts `s`.
pub fn last_piece(s: &Vec<char>, c: char) -> (r: Vec<char>)
    ensures
        r@ == pieces(s@, c).last(),
{
    let mut p = split_on(s, c);
    assert(p@.last()@ == views(p@).last());
    p.pop().unwrap()
}

/// The names of a class header line: the deobfuscated one, the obfuscated
/// one for the name table, and the obfuscated one for the output.
pub fn class_header(line: &Vec<char>) -> (r: Option<(Vec<char>, Vec<char>, Vec<char>)>)
    ensures
        r is Some == is_class_header(line@),
        r matches Some(h) ==> h.0@ == header_deobf(line@) && h.1@ == header_obf(line@) && h.2@
            == header_shown_obf(line@),
{
    if starts_comment(line) || starts_member(line) {
        return None;
    }
    match sides(line) {
        None => None,
        Some((deobf, right)) => {
            let shown = first_piece(&trimmed(&right), ':');
            if primitive_letter(&deobf).is_some() || primitive_letter(&shown).is_some() {
                None
            } else {
                let obf = first_piece(&right, ':');
                Some((deobf, obf, shown))
            }
        },
    }
}

/// Adds the pair of `line` to `table` where `line` is a class header.
pub fn add_header(table: &mut NameTable, line: &Vec<char>)
    ensures
        final(table)@ == table_step(old(table)@, line@),
{
    match class_header(line) {
        Some((deobf, obf, _)) => {
            table.put(wrapped_path(&deobf), obf);
        },
        None => {},
    }
}

/// The name table of the lines `ls`.
pub fn collect_names(ls: &Vec<Vec<char>>) -> (table: NameTable)
    ensures
        table@ == name_table(views(ls@)),
{
    let mut table = NameTable::new();
    let mut i: usize = 0;
    while i < ls.len()
        invariant
            i <= ls.len(),
            table@ == name_table(views(ls@).take(i as int)),
        decreases ls.len() - i,
    {
        assert(views(ls@).take(i + 1).drop_last() =~= views(ls@).take(i as int));
        assert(views(ls@).take(i + 1).last() == ls@[i as int]@);
        add_header(&mut table, &ls[i]);
        i += 1;
    }
    assert(views(ls@).take(ls.len() as int) =~= views(ls@));
    table
}

/// The descriptors of the parameter list `args` under `table`.
pub fn encode_params(args: &Vec<char>, table: &NameTable) -> (r: Vec<char>)
    ensures
        r@ == params(args@, table@),
{
    let mut r: Vec<char> = Vec::new();
    if args.len() == 0 {
        return r;
    }
    let tokens = split_on(args, ',');
    let mut i: usize = 0;
    while i < tokens.len()
        invariant
            i <= tokens.len(),
            r@ == joined(views(tokens@).take(i as int), table@),
        decreases tokens.len() - i,
    {
        assert(views(tokens@).take(i + 1).drop_last() =~= views(tokens@).take(i as int));
        assert(views(tokens@).take(i + 1).last() == tokens@[i as int]@);
        let d = encode_chars(&tokens[i], table);
        append_chars(&mut r, &d);
        i += 1;
    }
    assert(views(tokens@).take(tokens.len() as int) =~= views(tokens@));
    r
}

/// Appends to `out` what the member line with the sides `left` and `right`
/// contributes under `table`.
fn emit_member(out: &mut Vec<char>, left: &Vec<char>, right: &Vec<char>, table: &NameTable)
    ensures
        final(out)@ == old(out)@ + ({
            let w = words(left@);
            let obf = trim(right@);
            if w.len() < 2 {
                Seq::empty()
            } else if is_method_name(w[1]) {
                method_text(obf, type_token(w[0]), w[1], table@)
            } else {
                field_text(obf, w[1])
            }
        }),
{
    let w = split_words(left);
    if w.len() < 2 {
        assert(out@ =~= old(out)@ + Seq::<char>::empty());
        return ;
    }
    let obf = trimmed(right);
    let word = &w[1];
    assert(word@ == views(w@)[1]);
    assert(w@[0]@ == views(w@)[0]);
    out.push('\t');
    append_chars(out, &obf);
    out.push(' ');
    if contains_char(word, '(') && contains_char(word, ')') {
        let ty = last_piece(&w[0], ':');
        let name = first_piece(word, '(');
        let args = first_piece(&last_piece(word, '('), ')');
        let ps = encode_params(&args, table);
        let ret = encode_chars(&ty, table);
        out.push('(');
        append_chars(out, &ps);
        out.push(')');
        append_chars(out, &ret);
        out.push(' ');
        append_chars(out, &name);
        out.push('\n');
        assert(out@ =~= old(out)@ + method_text(obf@, ty@, word@, table@));
    } else {
        append_chars(out, word);
        out.push('\n');
        assert(out@ =~= old(out)@ + field_text(obf@, word@));
    }
}

/// Appends to `out` what `line` contributes to the output under `table`.
pub fn emit_line(out: &mut Vec<char>, line: &Vec<char>, table: &NameTable)
    ensures
        final(out)@ == old(out)@ + line_text(line@, table@),
{
    if starts_comment(line) {
        assert(out@ =~= old(out)@ + Seq::<char>::empty());
        return ;
    }
    if starts_member(line) {
        match sides(line) {
            None => {
                assert(out@ =~= old(out)@ + Seq::<char>::empty());
            },
            Some((left, right)) => {
                emit_member(out, &left, &right, table);
            },
        }
    } else {
        match class_header(line) {
            None => {
                assert(out@ =~= old(out)@ + Seq::<char>::empty());
            },
            Some((deobf, _, shown)) => {
                let a = slashed(&shown);
                let b = slashed(&deobf);
                append_chars(out, &a);
                out.push(' ');
                append_chars(out, &b);
                out.push('\n');
                assert(out@ =~= old(out)@ + class_text(line@));
            },
        }
    }
}

/// The output of the lines `ls` under `table`.
pub fn emit_lines(ls: &Vec<Vec<char>>, table: &NameTable) -> (out: Vec<char>)
    ensures
        out@ == emitted(views(ls@), table@),
{
    let mut out: Vec<char> = Vec::new();
    let mut i: usize = 0;
    while i < ls.len()
        invariant
            i <= ls.len(),
            out@ == emitted(views(ls@).take(i as int), table@),
        decreases ls.len() - i,
    {
        assert(views(ls@).take(i + 1).drop_last() =~= views(ls@).take(i as int));
        assert(views(ls@).take(i + 1).last() == ls@[i as int]@);
        emit_line(&mut out, &ls[i], table);
        i += 1;
    }
    assert(views(ls@).take(ls.len() as int) =~= views(ls@));
    out
}

/// The kind of the line `line`.
pub fn classify(line: &str) -> (r: MappingLine)
    ensures
        r == line_kind(line@),
{
    let l = chars_of(line);
    if starts_comment(&l) {
        return MappingLine::Comment;
    }
    if starts_member(&l) {
        match sides(&l) {
            None => MappingLine::Skipped,
            Some((left, _)) => {
                let w = split_words(&left);
                if w.len() < 2 {
                    MappingLine::Skipped
                } else {
                    let word = &w[1];
                    assert(word@ == views(w@)[1]);
                    if contains_char(word, '(') && contains_char(word, ')') {
                        MappingLine::MethodMember
                    } else {
                        MappingLine::FieldMember
                    }
                }
            },
        }
    } else {
        match class_header(&l) {
            None => MappingLine::Skipped,
            Some(_) => MappingLine::ClassHeader,
        }
    }
}

/// The name table of the mapping text `mappings`: the first pass.
pub fn build_name_table(mappings: &str) -> (table: NameTable)
    ensures
        table@ == name_table(lines(mappings@)),
{
    let s = chars_of(mappings);
    let ls = split_lines(&s);
    collect_names(&ls)
}

/// What the single line `line` contributes to the output under `table`:
/// the second pass on one line.
pub fn convert_line(line: &str, table: &NameTable) -> (r: String)
    ensures
        r@ == line_text(line@, table@),
{
    let l = chars_of(line);
    let mut out: Vec<char> = Vec::new();
    emit_line(&mut out, &l, table);
    assert(out@ =~= line_text(line@, table@));
    string_of(&out)
}

/// Converts a deobfuscation mapping into descriptor-based mapping text.
/// Every class header, method and field becomes one output line, in the
/// order of the input; comments and lines of another shape leave no trace.
/// Class names in descriptors are resolved through the headers of the whole
/// text, so a class may be named before its own header.
pub fn convert_mappings(mappings: &str) -> (r: String)
    ensures
        r@ == converted(mappings@),
{
    let s = chars_of(mappings);
    let ls = split_lines(&s);
    let table = collect_names(&ls);
    let out = emit_lines(&ls, &table);
    string_of(&out)
}

/// A comment line and a line without the separator contribute nothing:
/// neither a pair to the name table nor text to the output.
pub proof fn lemma_silent_line(line: Seq<char>, table: Map<Seq<char>, Seq<char>>)
    requires
        is_comment(line) || !has_sep(line),
    ensures
        line_kind(line) == MappingLine::Comment || line_kind(line) == MappingLine::Skipped,
        table_step(table, line) == table,
        line_text(line, table) == Seq::<char>::empty(),
{
}

/// Taking a comment line, or a line without the separator, out of a text
/// changes neither its name table nor its output.
pub proof fn lemma_silent_line_removed(
    ls: Seq<Seq<char>>,
    i: int,
    table: Map<Seq<char>, Seq<char>>,
)
    requires
        0 <= i < ls.len(),
        is_comment(ls[i]) || !has_sep(ls[i]),
    ensures
        name_table(ls.remove(i)) == name_table(ls),
        emitted(ls.remove(i), table) == emitted(ls, table),
    decreases ls.len(),
{
    if i == ls.len() - 1 {
        assert(ls.remove(i) =~= ls.drop_last());
        assert(emitted(ls.drop_last(), table) + Seq::<char>::empty() =~= emitted(
            ls.drop_last(),
            table,
        ));
    } else {
        assert(ls.remove(i).drop_last() =~= ls.drop_last().remove(i));
        assert(ls.remove(i).last() == ls.last());
        lemma_silent_line_removed(ls.drop_last(), i, table);
    }
}

/// The key of a class header is the descriptor of the class's name under
/// any table that does not hold the key yet, array markers aside: the keys
/// of the name table do not depend on what the table holds.
pub proof fn lemma_header_key(line: Seq<char>, table: Map<Seq<char>, Seq<char>>)
    requires
        is_class_header(line),
        !ends_with_marker(header_deobf(line)),
        !table.contains_key(header_key(line)),
    ensures
        header_key(line) == descriptor(header_deobf(line), table),
{
    lemma_unknown_token(header_deobf(line), table);
}

/// The output line of a class header holds the internal names of the two
/// descriptors: that of the obfuscated name, a space, that of the
/// deobfuscated name, which is also the class's key in the name table.
pub proof fn lemma_class_text(line: Seq<char>)
    requires
        is_class_header(line),
    ensures
        class_text(line) == internal_name(base_descriptor(header_shown_obf(line))) + seq![' ']
            + internal_name(header_key(line)) + seq!['\n'],
{
    lemma_internal_name(header_shown_obf(line));
    lemma_internal_name(header_deobf(line));
}

/// The name table holds, for the class of a header line, the obfuscated
/// name of that line unless a later header names the same class; where the
/// header stands among the lines does not matter. A type token that names
/// the class therefore has the wrapped obfuscated name as descriptor in
/// every line of the text, before the header as well as after it.
pub proof fn lemma_forward_reference(ls: Seq<Seq<char>>, j: int)
    requires
        0 <= j < ls.len(),
        is_class_header(ls[j]),
        forall|k: int|
            j < k < ls.len() && is_class_header(ls[k]) ==> header_key(ls[k]) != header_key(ls[j]),
    ensures
        name_table(ls).contains_key(header_key(ls[j])),
        name_table(ls)[header_key(ls[j])] == header_obf(ls[j]),
        !ends_with_marker(header_deobf(ls[j])) ==> descriptor(header_deobf(ls[j]), name_table(ls))
            == wrap(dots_to_slashes(header_obf(ls[j]))),
    decreases ls.len(),
{
    if j < ls.len() - 1 {
        lemma_forward_reference(ls.drop_last(), j);
    }
    if !ends_with_marker(header_deobf(ls[j])) {
        lemma_plain_token(header_deobf(ls[j]), name_table(ls));
    }
}

/// The descriptors of a parameter list are those of its tokens one after
/// the other, each under the same table: the tokens before a token, that
/// token, and the tokens after it.
pub proof fn lemma_token_by_token(
    tokens: Seq<Seq<char>>,
    k: int,
    table: Map<Seq<char>, Seq<char>>,
)
    requires
        0 <= k < tokens.len(),
    ensures
        joined(tokens, table) == joined(tokens.take(k), table) + descriptor(tokens[k], table)
            + joined(tokens.skip(k + 1), table),
    decreases tokens.len(),
{
    if k == tokens.len() - 1 {
        assert(tokens.take(k) =~= tokens.drop_last());
        assert(tokens.skip(k + 1) =~= Seq::<Seq<char>>::empty());
        assert(joined(tokens, table) =~= joined(tokens.take(k), table) + descriptor(
            tokens[k],
            table,
        ) + Seq::<char>::empty());
    } else {
        lemma_token_by_token(tokens.drop_last(), k, table);
        assert(tokens.drop_last().take(k) =~= tokens.take(k));
        assert(tokens.drop_last().skip(k + 1) =~= tokens.skip(k + 1).drop_last());
        assert(tokens.skip(k + 1).last() == tokens.last());
        assert(joined(tokens, table) =~= joined(tokens.take(k), table) + descriptor(
            tokens[k],
            table,
        ) + joined(tokens.skip(k + 1), table));
    }
}

/// A parameter that names a class of the text is written with the class's
/// obfuscated name, whether the class's header stands before or after the
/// line of the parameter: among the descriptors of a parameter list under
/// the text's name table, the one at the place of such a token is the
/// wrapped obfuscated name.
pub proof fn lemma_forward_parameter(ls: Seq<Seq<char>>, j: int, tokens: Seq<Seq<char>>, k: int)
    requires
        0 <= j < ls.len(),
        is_class_header(ls[j]),
        forall|l: int|
            j < l < ls.len() && is_class_header(ls[l]) ==> header_key(ls[l]) != header_key(ls[j]),
        0 <= k < tokens.len(),
        tokens[k] == header_deobf(ls[j]),
        !ends_with_marker(tokens[k]),
    ensures
        joined(tokens, name_table(ls)) == joined(tokens.take(k), name_table(ls)) + wrap(
            dots_to_slashes(header_obf(ls[j])),
        ) + joined(tokens.skip(k + 1), name_table(ls)),
{
    lemma_forward_reference(ls, j);
    lemma_token_by_token(tokens, k, name_table(ls));
}

/// The output of a text is the output of its lines one after the other,
/// each under the same table: the lines before a line, that line, and the
/// lines after it.
pub proof fn lemma_line_by_line(ls: Seq<Seq<char>>, i: int, table: Map<Seq<char>, Seq<char>>)
    requires
        0 <= i < ls.len(),
    ensures
        emitted(ls, table) == emitted(ls.take(i), table) + line_text(ls[i], table) + emitted(
            ls.skip(i + 1),
            table,
        ),
    decreases ls.len(),
{
    if i == ls.len() - 1 {
        assert(ls.take(i) =~= ls.drop_last());
        assert(ls.skip(i + 1) =~= Seq::<Seq<char>>::empty());
        assert(emitted(ls, table) =~= emitted(ls.take(i), table) + line_text(ls[i], table)
            + Seq::<char>::empty());
    } else {
        lemma_line_by_line(ls.drop_last(), i, table);
        assert(ls.drop_last().take(i) =~= ls.take(i));
        assert(ls.drop_last().skip(i + 1) =~= ls.skip(i + 1).drop_last());
        assert(ls.skip(i + 1).last() == ls.last());
        assert(emitted(ls, table) =~= emitted(ls.take(i), table) + line_text(ls[i], table)
            + emitted(ls.skip(i + 1), table));
    }
}

} // verus!
