//! Type descriptors: the compact encoding of a type token, with array
//! dimensions as a prefix and class names resolved through a name table.

use crate::text::{append_chars, chars_of, is_word, same_chars, string_of, sub_chars};
use vstd::prelude::*;
use vstd::string::*;

verus! {

/// Whether `s` ends with the two-character array marker `[]`.
pub open spec fn ends_with_marker(s: Seq<char>) -> bool {
    s.len() >= 2 && s[s.len() - 2] == '[' && s[s.len() - 1] == ']'
}

/// `s` without the array markers at its end.
pub open spec fn strip_markers(s: Seq<char>) -> Seq<char>
    decreases s.len(),
{
    if ends_with_marker(s) {
        strip_markers(s.subrange(0, s.len() - 2))
    } else {
        s
    }
}

/// The number of array markers at the end of `s`.
pub open spec fn marker_count(s: Seq<char>) -> nat
    decreases s.len(),
{
    if ends_with_marker(s) {
        1 + marker_count(s.subrange(0, s.len() - 2))
    } else {
        0
    }
}

/// The letter of a reserved primitive keyword; `None` for any other token.
/// The match is on the whole token and case-sensitive.
pub open spec fn primitive_code(t: Seq<char>) -> Option<char> {
    if t == "int"@ {
        Some('I')
    } else if t == "double"@ {
        Some('D')
    } else if t == "boolean"@ {
        Some('Z')
    } else if t == "float"@ {
        Some('F')
    } else if t == "long"@ {
        Some('J')
    } else if t == "byte"@ {
        Some('B')
    } else if t == "short"@ {
        Some('S')
    } else if t == "char"@ {
        Some('C')
    } else if t == "void"@ {
        Some('V')
    } else {
        None
    }
}

/// `c`, or the path separator where `c` is a dot.
pub open spec fn slash(c: char) -> char {
    if c == '.' {
        '/'
    } else {
        c
    }
}

/// `s` with every dot replaced by the path separator.
pub open spec fn dots_to_slashes(s: Seq<char>) -> Seq<char> {
    Seq::new(s.len(), |i: int| slash(s[i]))
}

/// The reference-type wrapper around `name`: `L`, the name, `;`.
pub open spec fn wrap(name: Seq<char>) -> Seq<char> {
    seq!['L'] + name + seq![';']
}

/// The descriptor of a token that carries no array marker and is not looked
/// up: a primitive's letter, or the wrapped path of a class name.
pub open spec fn base_descriptor(t: Seq<char>) -> Seq<char> {
    match primitive_code(t) {
        Some(letter) => seq![letter],
        None => wrap(dots_to_slashes(t)),
    }
}

/// `n` array-dimension markers `[`.
pub open spec fn array_prefix(n: nat) -> Seq<char> {
    Seq::new(n, |i: int| '[')
}

/// The name that stands for the class `name` in a descriptor: the one that
/// `table` holds under the class's wrapped path, or `name` itself where it
/// holds none.
pub open spec fn resolved_name(name: Seq<char>, table: Map<Seq<char>, Seq<char>>) -> Seq<char> {
    let key = wrap(dots_to_slashes(name));
    if table.contains_key(key) {
        table[key]
    } else {
        name
    }
}

/// The descriptor of the type token `token` under the name table `table`.
pub open spec fn descriptor(token: Seq<char>, table: Map<Seq<char>, Seq<char>>) -> Seq<char> {
    let base = strip_markers(token);
    let inner = match primitive_code(base) {
        Some(letter) => seq![letter],
        None => wrap(dots_to_slashes(resolved_name(base, table))),
    };
    array_prefix(marker_count(token)) + inner
}

/// The map that a list of insertions builds: a later pair replaces an
/// earlier one with the same key.
pub open spec fn pairs_map(e: Seq<(Seq<char>, Seq<char>)>) -> Map<Seq<char>, Seq<char>>
    decreases e.len(),
{
    if e.len() == 0 {
        Map::empty()
    } else {
        pairs_map(e.drop_last()).insert(e.last().0, e.last().1)
    }
}

/// The views of a list of pairs of character vectors.
pub open spec fn pair_views(v: Seq<(Vec<char>, Vec<char>)>) -> Seq<(Seq<char>, Seq<char>)> {
    Seq::new(v.len(), |i: int| (v[i].0@, v[i].1@))
}

proof fn lemma_latest_wins(e: Seq<(Seq<char>, Seq<char>)>, key: Seq<char>, i: int)
    requires
        0 <= i < e.len(),
        e[i].0 == key,
        forall|j: int| i < j < e.len() ==> e[j].0 != key,
    ensures
        pairs_map(e).contains_key(key),
        pairs_map(e)[key] == e[i].1,
    decreases e.len(),
{
    if i < e.len() - 1 {
        lemma_latest_wins(e.drop_last(), key, i);
    }
}

proof fn lemma_no_pair(e: Seq<(Seq<char>, Seq<char>)>, key: Seq<char>)
    requires
        forall|j: int| 0 <= j < e.len() ==> e[j].0 != key,
    ensures
        !pairs_map(e).contains_key(key),
    decreases e.len(),
{
    if e.len() > 0 {
        lemma_no_pair(e.drop_last(), key);
    }
}

/// The lookup from a class's wrapped path to its obfuscated name.
pub struct NameTable {
    entries: Vec<(Vec<char>, Vec<char>)>,
}

impl View for NameTable {
    type V = Map<Seq<char>, Seq<char>>;

    closed spec fn view(&self) -> Map<Seq<char>, Seq<char>> {
        pairs_map(pair_views(self.entries@))
    }
}

impl NameTable {
    /// The table without entries.
    pub fn new() -> (t: NameTable)
        ensures
            t@ == Map::<Seq<char>, Seq<char>>::empty(),
    {
        NameTable { entries: Vec::new() }
    }

    /// Puts `name` under `key`, in place of what stood there.
    pub fn put(&mut self, key: Vec<char>, name: Vec<char>)
        ensures
            final(self)@ == old(self)@.insert(key@, name@),
    {
        self.entries.push((key, name));
        assert(pair_views(self.entries@).drop_last() =~= pair_views(old(self).entries@));
    }

    /// The name under `key`, where there is one.
    pub fn find(&self, key: &Vec<char>) -> (r: Option<&Vec<char>>)
        ensures
            r is Some == self@.contains_key(key@),
            r matches Some(name) ==> name@ == self@[key@],
    {
        let mut i: usize = self.entries.len();
        while i > 0
            invariant
                i <= self.entries.len(),
                forall|j: int|
                    i <= j < self.entries.len() ==> pair_views(self.entries@)[j].0 != key@,
            decreases i,
        {
            i -= 1;
            if same_chars(&self.entries[i].0, key) {
                proof {
                    lemma_latest_wins(pair_views(self.entries@), key@, i as int);
                }
                return Some(&self.entries[i].1);
            }
        }
        proof {
            lemma_no_pair(pair_views(self.entries@), key@);
        }
        None
    }

    /// Puts `name` under `key`, in place of what stood there.
    pub fn insert(&mut self, key: &str, name: &str)
        ensures
            final(self)@ == old(self)@.insert(key@, name@),
    {
        self.put(chars_of(key), chars_of(name));
    }

    /// The name under `key`, where there is one.
    pub fn get(&self, key: &str) -> (r: Option<String>)
        ensures
            r is Some == self@.contains_key(key@),
            r matches Some(name) ==> name@ == self@[key@],
    {
        let k = chars_of(key);
        match self.find(&k) {
            Some(name) => Some(string_of(name)),
            None => None,
        }
    }
}

/// The length of `s` without the array markers at its end, and their number.
pub fn marker_split(s: &Vec<char>) -> (r: (usize, usize))
    ensures
        r.0 <= s.len(),
        s@.take(r.0 as int) == strip_markers(s@),
        r.1 == marker_count(s@),
{
    let mut end: usize = s.len();
    let mut count: usize = 0;
    assert(s@.take(end as int) =~= s@);
    while end >= 2 && s[end - 2] == '[' && s[end - 1] == ']'
        invariant
            end <= s.len(),
            end + 2 * count == s.len(),
            strip_markers(s@) == strip_markers(s@.take(end as int)),
            marker_count(s@) == count + marker_count(s@.take(end as int)),
        decreases end,
    {
        assert(s@.take(end as int).subrange(0, end - 2) =~= s@.take(end - 2));
        end -= 2;
        count += 1;
    }
    (end, count)
}

/// Removes the array markers at the end of `line` and counts them.
pub fn remove_brackets<'a>(line: &'a str) -> (r: (&'a str, usize))
    ensures
        r.0@ == strip_markers(line@),
        r.1 == marker_count(line@),
{
    let s = chars_of(line);
    let (end, count) = marker_split(&s);
    (line.substring_char(0, end), count)
}

/// The letter of a reserved primitive keyword.
pub fn primitive_letter(t: &Vec<char>) -> (r: Option<char>)
    ensures
        r == primitive_code(t@),
{
    if is_word(t, "int") {
        Some('I')
    } else if is_word(t, "double") {
        Some('D')
    } else if is_word(t, "boolean") {
        Some('Z')
    } else if is_word(t, "float") {
        Some('F')
    } else if is_word(t, "long") {
        Some('J')
    } else if is_word(t, "byte") {
        Some('B')
    } else if is_word(t, "short") {
        Some('S')
    } else if is_word(t, "char") {
        Some('C')
    } else if is_word(t, "void") {
        Some('V')
    } else {
        None
    }
}

/// `s` with every dot replaced by the path separator.
pub fn slashed(s: &Vec<char>) -> (r: Vec<char>)
    ensures
        r@ == dots_to_slashes(s@),
{
    let mut r: Vec<char> = Vec::new();
    let mut i: usize = 0;
    while i < s.len()
        invariant
            i <= s.len(),
            r@ == dots_to_slashes(s@.take(i as int)),
        decreases s.len() - i,
    {
        let c: char = s[i];
        if c == '.' {
            r.push('/');
        } else {
            r.push(c);
        }
        assert(r@ =~= dots_to_slashes(s@.take(i + 1)));
        i += 1;
    }
    assert(s@.take(s.len() as int) =~= s@);
    r
}

/// `L`, then `name` with its dots replaced by the path separator, then `;`.
pub fn wrapped_path(name: &Vec<char>) -> (r: Vec<char>)
    ensures
        r@ == wrap(dots_to_slashes(name@)),
{
    let mut r: Vec<char> = Vec::new();
    r.push('L');
    let path = slashed(name);
    append_chars(&mut r, &path);
    r.push(';');
    r
}

/// The descriptor of a token without array markers, with no lookup.
pub fn base_chars(t: &Vec<char>) -> (r: Vec<char>)
    ensures
        r@ == base_descriptor(t@),
{
    match primitive_letter(t) {
        Some(letter) => {
            let mut r: Vec<char> = Vec::new();
            r.push(letter);
            assert(r@ =~= seq![letter]);
            r
        },
        None => wrapped_path(t),
    }
}

/// The descriptor of a class name or primitive keyword, with no lookup.
pub fn remap_file_path(path: &str) -> (r: String)
    ensures
        r@ == base_descriptor(path@),
{
    let t = chars_of(path);
    let d = base_chars(&t);
    string_of(&d)
}

/// The descriptor of the type token `token` under `table`.
pub fn encode_chars(token: &Vec<char>, table: &NameTable) -> (r: Vec<char>)
    ensures
        r@ == descriptor(token@, table@),
{
    let (end, count) = marker_split(token);
    let base = sub_chars(token, 0, end);
    assert(base@ =~= strip_markers(token@));
    let mut r: Vec<char> = Vec::new();
    let mut k: usize = 0;
    while k < count
        invariant
            k <= count,
            r@ == array_prefix(k as nat),
        decreases count - k,
    {
        r.push('[');
        assert(r@ =~= array_prefix((k + 1) as nat));
        k += 1;
    }
    match primitive_letter(&base) {
        Some(letter) => {
            r.push(letter);
            assert(r@ =~= array_prefix(count as nat) + seq![letter]);
        },
        None => {
            let key = wrapped_path(&base);
            let inner = match table.find(&key) {
                Some(name) => wrapped_path(name),
                None => key,
            };
            append_chars(&mut r, &inner);
        },
    }
    r
}

/// The descriptor of the type token `token` under `table`: the token's array
/// markers become a prefix, a primitive keyword its letter, and any other
/// name a wrapped path, that of the name the table resolves it to.
pub fn encode_type(token: &str, table: &NameTable) -> (r: String)
    ensures
        r@ == descriptor(token@, table@),
{
    let t = chars_of(token);
    let d = encode_chars(&t, table);
    string_of(&d)
}

/// The internal name in a wrapped descriptor: the descriptor without its
/// first and its last character.
pub open spec fn internal_name(d: Seq<char>) -> Seq<char> {
    d.subrange(1, d.len() - 1)
}

/// The internal name of a class's descriptor is the class's name with the
/// dots replaced by the path separator.
pub proof fn lemma_internal_name(name: Seq<char>)
    requires
        primitive_code(name) is None,
    ensures
        internal_name(base_descriptor(name)) == dots_to_slashes(name),
{
    assert(internal_name(wrap(dots_to_slashes(name))) =~= dots_to_slashes(name));
}

/// Under a table that does not hold it, a token without array markers has
/// the descriptor that needs no table.
pub proof fn lemma_unknown_token(token: Seq<char>, table: Map<Seq<char>, Seq<char>>)
    requires
        !ends_with_marker(token),
        !table.contains_key(wrap(dots_to_slashes(token))),
    ensures
        descriptor(token, table) == base_descriptor(token),
{
    lemma_plain_token(token, table);
}

/// `n` array markers `[]`, one after the other.
pub open spec fn array_suffix(n: nat) -> Seq<char>
    decreases n,
{
    if n == 0 {
        Seq::empty()
    } else {
        array_suffix((n - 1) as nat) + seq!['[', ']']
    }
}

/// A token that ends with no array marker is its own base and has no
/// dimension.
pub proof fn lemma_plain_token(token: Seq<char>, table: Map<Seq<char>, Seq<char>>)
    requires
        !ends_with_marker(token),
    ensures
        strip_markers(token) == token,
        marker_count(token) == 0,
        descriptor(token, table) == match primitive_code(token) {
            Some(letter) => seq![letter],
            None => wrap(dots_to_slashes(resolved_name(token, table))),
        },
{
    assert(array_prefix(0) =~= Seq::<char>::empty());
    assert forall|x: Seq<char>| Seq::<char>::empty() + x =~= x by {}
}

/// Each of the nine reserved primitive keywords has exactly its letter as
/// descriptor, under every name table.
pub proof fn lemma_primitive_descriptors(table: Map<Seq<char>, Seq<char>>)
    ensures
        descriptor("int"@, table) == seq!['I'],
        descriptor("double"@, table) == seq!['D'],
        descriptor("boolean"@, table) == seq!['Z'],
        descriptor("float"@, table) == seq!['F'],
        descriptor("long"@, table) == seq!['J'],
        descriptor("byte"@, table) == seq!['B'],
        descriptor("short"@, table) == seq!['S'],
        descriptor("char"@, table) == seq!['C'],
        descriptor("void"@, table) == seq!['V'],
{
    reveal_strlit("int");
    reveal_strlit("double");
    reveal_strlit("boolean");
    reveal_strlit("float");
    reveal_strlit("long");
    reveal_strlit("byte");
    reveal_strlit("short");
    reveal_strlit("char");
    reveal_strlit("void");
    lemma_plain_token("int"@, table);
    lemma_plain_token("double"@, table);
    lemma_plain_token("boolean"@, table);
    lemma_plain_token("float"@, table);
    lemma_plain_token("long"@, table);
    lemma_plain_token("byte"@, table);
    lemma_plain_token("short"@, table);
    lemma_plain_token("char"@, table);
    lemma_plain_token("void"@, table);
}

/// Without array markers and without a table, each of the nine reserved
/// primitive keywords has exactly its letter as descriptor as well.
pub proof fn lemma_primitive_base_descriptors()
    ensures
        base_descriptor("int"@) == seq!['I'],
        base_descriptor("double"@) == seq!['D'],
        base_descriptor("boolean"@) == seq!['Z'],
        base_descriptor("float"@) == seq!['F'],
        base_descriptor("long"@) == seq!['J'],
        base_descriptor("byte"@) == seq!['B'],
        base_descriptor("short"@) == seq!['S'],
        base_descriptor("char"@) == seq!['C'],
        base_descriptor("void"@) == seq!['V'],
{
    reveal_strlit("int");
    reveal_strlit("double");
    reveal_strlit("boolean");
    reveal_strlit("float");
    reveal_strlit("long");
    reveal_strlit("byte");
    reveal_strlit("short");
    reveal_strlit("char");
    reveal_strlit("void");
    assert("int"@.len() == 3 && "double"@.len() == 6 && "boolean"@.len() == 7);
    assert("float"@.len() == 5 && "float"@[0] == 'f');
    assert("long"@.len() == 4 && "long"@[0] == 'l');
    assert("byte"@.len() == 4 && "byte"@[0] == 'b');
    assert("short"@.len() == 5 && "short"@[0] == 's');
    assert("char"@.len() == 4 && "char"@[0] == 'c');
    assert("void"@.len() == 4 && "void"@[0] == 'v');
}

/// A token that is none of the primitive keywords has, without a table,
/// the wrapped reference form as descriptor.
pub proof fn lemma_reference_base_descriptor(token: Seq<char>)
    requires
        primitive_code(token) is None,
    ensures
        base_descriptor(token) == wrap(dots_to_slashes(token)),
        base_descriptor(token).first() == 'L',
        base_descriptor(token).last() == ';',
{
}

/// A token whose base is none of the primitive keywords has the wrapped
/// reference form as descriptor: after one `[` for each of its array
/// markers come `L`, a path and `;`.
pub proof fn lemma_reference_descriptor(token: Seq<char>, table: Map<Seq<char>, Seq<char>>)
    requires
        primitive_code(strip_markers(token)) is None,
    ensures
        descriptor(token, table) == array_prefix(marker_count(token)) + wrap(
            dots_to_slashes(resolved_name(strip_markers(token), table)),
        ),
        descriptor(token, table).len() >= marker_count(token) + 2,
        descriptor(token, table)[marker_count(token) as int] == 'L',
        descriptor(token, table).last() == ';',
{
}

/// Array markers added to a token add nothing but their number.
pub proof fn lemma_suffix_counts(token: Seq<char>, n: nat)
    ensures
        strip_markers(token + array_suffix(n)) == strip_markers(token),
        marker_count(token + array_suffix(n)) == marker_count(token) + n,
    decreases n,
{
    if n == 0 {
        assert(token + array_suffix(0) =~= token);
    } else {
        let s = token + array_suffix(n);
        let shorter = token + array_suffix((n - 1) as nat);
        assert(s =~= shorter + seq!['[', ']']);
        assert(s.subrange(0, s.len() - 2) =~= shorter);
        assert(ends_with_marker(s));
        lemma_suffix_counts(token, (n - 1) as nat);
    }
}

/// A token followed by `n` array markers has as descriptor `n` times `[`
/// and then the descriptor of the token alone.
pub proof fn lemma_array_markers(token: Seq<char>, n: nat, table: Map<Seq<char>, Seq<char>>)
    ensures
        descriptor(token + array_suffix(n), table) == array_prefix(n) + descriptor(token, table),
{
    lemma_suffix_counts(token, n);
    assert(array_prefix(marker_count(token) + n) =~= array_prefix(n) + array_prefix(
        marker_count(token),
    ));
    assert(descriptor(token + array_suffix(n), table) =~= array_prefix(n) + descriptor(
        token,
        table,
    ));
}

} // verus!
