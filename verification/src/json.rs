//! Compact JSON text: how values are written, and that an object can be read back.
use vstd::prelude::*;

verus! {

/// A hexadecimal digit, in lower case.
pub open spec fn hex_digit(n: int) -> char
    recommends
        0 <= n < 16,
{
    if n < 10 {
        (48 + n) as char
    } else {
        (87 + n) as char
    }
}

/// `c` as it stands inside a JSON string.
pub open spec fn json_char(c: char) -> Seq<char> {
    let n = c as int;
    if c == '"' {
        seq!['\\', '"']
    } else if c == '\\' {
        seq!['\\', '\\']
    } else if n == 0x08 {
        seq!['\\', 'b']
    } else if n == 0x09 {
        seq!['\\', 't']
    } else if n == 0x0a {
        seq!['\\', 'n']
    } else if n == 0x0c {
        seq!['\\', 'f']
    } else if n == 0x0d {
        seq!['\\', 'r']
    } else if n < 0x20 {
        seq!['\\', 'u', '0', '0', hex_digit(n / 16), hex_digit(n % 16)]
    } else {
        seq![c]
    }
}

/// The characters of `s` as they stand inside a JSON string.
pub open spec fn json_chars(s: Seq<char>) -> Seq<char>
    decreases s.len(),
{
    if s.len() == 0 {
        seq![]
    } else {
        json_char(s[0]) + json_chars(s.drop_first())
    }
}

/// `s` as a JSON string, between quotation marks.
pub open spec fn json_string(s: Seq<char>) -> Seq<char> {
    seq!['"'] + json_chars(s) + seq!['"']
}

/// The members of a JSON object, `"key":value` with commas between them. Each entry is a key and
/// the text of its value.
pub open spec fn json_members(entries: Seq<(Seq<char>, Seq<char>)>) -> Seq<char>
    decreases entries.len(),
{
    if entries.len() == 0 {
        seq![]
    } else {
        json_string(entries[0].0) + seq![':'] + entries[0].1 + (if entries.len() == 1 {
            seq![]
        } else {
            seq![','] + json_members(entries.drop_first())
        })
    }
}

/// The JSON object with these entries.
pub open spec fn json_object(entries: Seq<(Seq<char>, Seq<char>)>) -> Seq<char> {
    seq!['{'] + json_members(entries) + seq!['}']
}

/// A JSON value. A number is held as it is written.
pub enum Json {
    Null,
    Bool(bool),
    Number(Seq<char>),
    Text(Seq<char>),
    Array(Seq<Json>),
    Object(Seq<(Seq<char>, Json)>),
}

/// The characters that a number is written with.
pub open spec fn is_number_char(c: char) -> bool {
    '0' <= c <= '9' || c == '-' || c == '+' || c == '.' || c == 'e' || c == 'E'
}

impl Json {
    /// Whether every number in the value is written as a number.
    pub open spec fn valid(self) -> bool
        decreases self,
    {
        match self {
            Json::Number(text) => text.len() > 0 && forall|i: int|
                0 <= i < text.len() ==> is_number_char(#[trigger] text[i]),
            Json::Array(items) => forall|i: int|
                0 <= i < items.len() ==> (#[trigger] items[i]).valid(),
            Json::Object(members) => forall|i: int|
                0 <= i < members.len() ==> (#[trigger] members[i]).1.valid(),
            _ => true,
        }
    }
}

/// The compact text of a JSON value.
pub open spec fn json_text(value: Json) -> Seq<char>
    decreases value,
{
    match value {
        Json::Null => seq!['n', 'u', 'l', 'l'],
        Json::Bool(b) => if b {
            seq!['t', 'r', 'u', 'e']
        } else {
            seq!['f', 'a', 'l', 's', 'e']
        },
        Json::Number(text) => text,
        Json::Text(s) => json_string(s),
        Json::Array(items) => seq!['['] + json_items(items) + seq![']'],
        Json::Object(members) => seq!['{'] + json_fields(members) + seq!['}'],
    }
}

/// The items of an array with commas between them.
pub open spec fn json_items(items: Seq<Json>) -> Seq<char>
    decreases items,
{
    if items.len() == 0 {
        seq![]
    } else {
        json_text(items[0]) + (if items.len() == 1 {
            seq![]
        } else {
            seq![','] + json_items(items.drop_first())
        })
    }
}

/// The members of an object with commas between them.
pub open spec fn json_fields(members: Seq<(Seq<char>, Json)>) -> Seq<char>
    decreases members,
{
    if members.len() == 0 {
        seq![]
    } else {
        json_string(members[0].0) + seq![':'] + json_text(members[0].1) + (if members.len() == 1 {
            seq![]
        } else {
            seq![','] + json_fields(members.drop_first())
        })
    }
}

/// Whether `text` is the compact text of a JSON value.
pub open spec fn is_json_value(text: Seq<char>) -> bool {
    exists|value: Json| value.valid() && #[trigger] json_text(value) == text
}

/// Whether `s` holds a control character below the space.
pub open spec fn has_control(s: Seq<char>) -> bool {
    exists|i: int| 0 <= i < s.len() && #[trigger] s[i] < ' '
}

/// The number that a hexadecimal digit stands for.
pub open spec fn hex_value(c: char) -> int {
    if '0' <= c <= '9' {
        c as int - 48
    } else if 'a' <= c <= 'f' {
        c as int - 87
    } else {
        c as int - 55
    }
}

/// The character that a backslash and `c` stand for.
pub open spec fn unescaped(c: char) -> char {
    if c == 'b' {
        '\u{8}'
    } else if c == 't' {
        '\t'
    } else if c == 'n' {
        '\n'
    } else if c == 'f' {
        '\u{c}'
    } else if c == 'r' {
        '\r'
    } else {
        c
    }
}

/// Reads a JSON string from behind its opening quotation mark: what it says, and the text behind
/// its closing quotation mark.
pub open spec fn read_string(s: Seq<char>) -> (Seq<char>, Seq<char>)
    decreases s.len(),
{
    if s.len() == 0 {
        (seq![], seq![])
    } else if s[0] == '"' {
        (seq![], s.skip(1))
    } else if s[0] == '\\' && s.len() >= 6 && s[1] == 'u' {
        let code = hex_value(s[2]) * 4096 + hex_value(s[3]) * 256 + hex_value(s[4]) * 16 + hex_value(
            s[5],
        );
        let (more, rest) = read_string(s.skip(6));
        (seq![code as char] + more, rest)
    } else if s[0] == '\\' && s.len() >= 2 {
        let (more, rest) = read_string(s.skip(2));
        (seq![unescaped(s[1])] + more, rest)
    } else {
        let (more, rest) = read_string(s.skip(1));
        (seq![s[0]] + more, rest)
    }
}

/// Where a reader stands that looks for the end of a value: how many brackets are open, and
/// whether it is inside a string and behind a backslash.
pub struct Scan {
    pub depth: int,
    pub quoted: bool,
    pub escaped: bool,
}

/// Outside of strings, with `depth` brackets open.
pub open spec fn outside(depth: int) -> Scan {
    Scan { depth, quoted: false, escaped: false }
}

/// Inside of a string, with `depth` brackets open.
pub open spec fn inside(depth: int) -> Scan {
    Scan { depth, quoted: true, escaped: false }
}

/// Whether a value ends before `c`: a comma or a closing brace that belongs to no bracket in it.
pub open spec fn ends_value(at: Scan, c: char) -> bool {
    at.depth == 0 && !at.quoted && (c == ',' || c == '}')
}

/// Where the reader stands behind `c`.
pub open spec fn scan_char(at: Scan, c: char) -> Scan {
    if at.escaped {
        Scan { escaped: false, ..at }
    } else if at.quoted && c == '\\' {
        Scan { escaped: true, ..at }
    } else if c == '"' {
        Scan { quoted: !at.quoted, ..at }
    } else if !at.quoted && (c == '{' || c == '[') {
        Scan { depth: at.depth + 1, ..at }
    } else if !at.quoted && (c == '}' || c == ']') {
        Scan { depth: at.depth - 1, ..at }
    } else {
        at
    }
}

/// The number of characters of `s` before the value ends.
pub open spec fn value_len(at: Scan, s: Seq<char>) -> int
    decreases s.len(),
{
    if s.len() == 0 || ends_value(at, s[0]) {
        0
    } else {
        1 + value_len(scan_char(at, s[0]), s.drop_first())
    }
}

/// Reads the members of a JSON object, from behind its opening brace or from the comma before a
/// member: each key with the text of its value.
pub open spec fn read_members(s: Seq<char>) -> Seq<(Seq<char>, Seq<char>)>
    decreases s.len(),
{
    if s.len() == 0 || s[0] == '}' {
        seq![]
    } else {
        let (key, colon) = read_string(s.skip(if s[0] == ',' { 2 } else { 1 }));
        let value = colon.skip(1);
        let rest = value.skip(value_len(outside(0), value));
        if rest.len() < s.len() {
            seq![(key, value.take(value_len(outside(0), value)))] + read_members(rest)
        } else {
            seq![]
        }
    }
}

/// Reads a JSON object: each key with the text of its value.
pub open spec fn read_object(s: Seq<char>) -> Seq<(Seq<char>, Seq<char>)> {
    read_members(s.skip(1))
}

/// Whether no key occurs twice.
pub open spec fn distinct_keys(entries: Seq<(Seq<char>, Seq<char>)>) -> bool {
    forall|i: int, j: int| 0 <= i < j < entries.len() ==> entries[i].0 != entries[j].0
}

/// Where the reader stands behind `s`, if no value ends in it.
spec fn scan(at: Scan, s: Seq<char>) -> Option<Scan>
    decreases s.len(),
{
    if s.len() == 0 {
        Some(at)
    } else if ends_value(at, s[0]) {
        None
    } else {
        scan(scan_char(at, s[0]), s.drop_first())
    }
}

proof fn lemma_scan_one(at: Scan, c: char)
    ensures
        scan(at, seq![c]) == (if ends_value(at, c) {
            None
        } else {
            Some(scan_char(at, c))
        }),
{
    reveal_with_fuel(scan, 2);
    assert(seq![c].drop_first() =~= Seq::<char>::empty());
}

proof fn lemma_scan_concat(at: Scan, a: Seq<char>, b: Seq<char>)
    requires
        scan(at, a) is Some,
    ensures
        scan(at, a + b) == scan(scan(at, a)->0, b),
    decreases a.len(),
{
    if a.len() == 0 {
        assert(a + b =~= b);
    } else {
        assert((a + b).drop_first() =~= a.drop_first() + b);
        lemma_scan_concat(scan_char(at, a[0]), a.drop_first(), b);
    }
}

/// Text without quotation marks, brackets and commas does not move the reader.
proof fn lemma_scan_plain(depth: int, s: Seq<char>)
    requires
        forall|i: int|
            0 <= i < s.len() ==> s[i] != '"' && s[i] != '{' && s[i] != '}' && s[i] != '[' && s[i]
                != ']' && #[trigger] s[i] != ',',
    ensures
        scan(outside(depth), s) == Some(outside(depth)),
    decreases s.len(),
{
    if s.len() > 0 {
        lemma_scan_plain(depth, s.drop_first());
    }
}

#[verifier::spinoff_prover]
#[verifier::rlimit(50)]
proof fn lemma_scan_json_char(depth: int, c: char)
    ensures
        scan(inside(depth), json_char(c)) == Some(inside(depth)),
{
    let at = inside(depth);
    let text = json_char(c);
    lemma_scan_one(at, text[0]);
    if text.len() == 1 {
        assert(text =~= seq![text[0]]);
    } else {
        let behind = scan_char(at, '\\');
        assert(scan_char(behind, text[1]) == at);
        lemma_scan_one(behind, text[1]);
        lemma_scan_concat(at, seq![text[0]], seq![text[1]]);
        let head = seq![text[0]] + seq![text[1]];
        if text.len() == 2 {
            assert(text =~= head);
        } else {
            assert forall|i: int| 2 <= i < 6 implies scan(at, seq![#[trigger] text[i]]) == Some(at) by {
                lemma_scan_one(at, text[i]);
            }
            lemma_scan_concat(at, head, seq![text[2]]);
            lemma_scan_concat(at, head + seq![text[2]], seq![text[3]]);
            lemma_scan_concat(at, head + seq![text[2]] + seq![text[3]], seq![text[4]]);
            lemma_scan_concat(
                at,
                head + seq![text[2]] + seq![text[3]] + seq![text[4]],
                seq![text[5]],
            );
            assert(text =~= head + seq![text[2]] + seq![text[3]] + seq![text[4]] + seq![text[5]]);
        }
    }
}

proof fn lemma_scan_json_chars(depth: int, s: Seq<char>)
    ensures
        scan(inside(depth), json_chars(s)) == Some(inside(depth)),
    decreases s.len(),
{
    if s.len() > 0 {
        lemma_scan_json_char(depth, s[0]);
        lemma_scan_json_chars(depth, s.drop_first());
        lemma_scan_concat(inside(depth), json_char(s[0]), json_chars(s.drop_first()));
    }
}

proof fn lemma_scan_json_string(depth: int, s: Seq<char>)
    ensures
        scan(outside(depth), json_string(s)) == Some(outside(depth)),
{
    lemma_scan_one(outside(depth), '"');
    lemma_scan_json_chars(depth, s);
    lemma_scan_concat(outside(depth), seq!['"'], json_chars(s));
    lemma_scan_one(inside(depth), '"');
    lemma_scan_concat(outside(depth), seq!['"'] + json_chars(s), seq!['"']);
}

/// A value does not end inside itself, and leaves no bracket open.
proof fn lemma_scan_value(depth: int, value: Json)
    requires
        depth >= 0,
        value.valid(),
    ensures
        scan(outside(depth), json_text(value)) == Some(outside(depth)),
    decreases value,
{
    let at = outside(depth);
    match value {
        Json::Null => lemma_scan_plain(depth, json_text(value)),
        Json::Bool(_) => lemma_scan_plain(depth, json_text(value)),
        Json::Number(text) => lemma_scan_plain(depth, text),
        Json::Text(s) => lemma_scan_json_string(depth, s),
        Json::Array(items) => {
            lemma_scan_one(at, '[');
            lemma_scan_items(depth + 1, items);
            lemma_scan_concat(at, seq!['['], json_items(items));
            lemma_scan_one(outside(depth + 1), ']');
            lemma_scan_concat(at, seq!['['] + json_items(items), seq![']']);
        },
        Json::Object(members) => {
            lemma_scan_one(at, '{');
            lemma_scan_fields(depth + 1, members);
            lemma_scan_concat(at, seq!['{'], json_fields(members));
            lemma_scan_one(outside(depth + 1), '}');
            lemma_scan_concat(at, seq!['{'] + json_fields(members), seq!['}']);
        },
    }
}

proof fn lemma_scan_items(depth: int, items: Seq<Json>)
    requires
        depth >= 1,
        forall|i: int| 0 <= i < items.len() ==> (#[trigger] items[i]).valid(),
    ensures
        scan(outside(depth), json_items(items)) == Some(outside(depth)),
    decreases items,
{
    let at = outside(depth);
    if items.len() > 0 {
        let first = json_text(items[0]);
        lemma_scan_value(depth, items[0]);
        if items.len() == 1 {
            assert(json_items(items) =~= first);
        } else {
            let more = items.drop_first();
            assert forall|i: int| 0 <= i < more.len() implies (#[trigger] more[i]).valid() by {
                assert(more[i] == items[i + 1]);
            }
            lemma_scan_items(depth, more);
            lemma_scan_one(at, ',');
            lemma_scan_concat(at, first, seq![',']);
            lemma_scan_concat(at, first + seq![','], json_items(more));
            assert(json_items(items) =~= first + seq![','] + json_items(more));
        }
    }
}

proof fn lemma_scan_fields(depth: int, members: Seq<(Seq<char>, Json)>)
    requires
        depth >= 1,
        forall|i: int| 0 <= i < members.len() ==> (#[trigger] members[i]).1.valid(),
    ensures
        scan(outside(depth), json_fields(members)) == Some(outside(depth)),
    decreases members,
{
    let at = outside(depth);
    if members.len() > 0 {
        let key = json_string(members[0].0);
        let value = json_text(members[0].1);
        lemma_scan_json_string(depth, members[0].0);
        lemma_scan_one(at, ':');
        lemma_scan_concat(at, key, seq![':']);
        lemma_scan_value(depth, members[0].1);
        lemma_scan_concat(at, key + seq![':'], value);
        let first = key + seq![':'] + value;
        if members.len() == 1 {
            assert(json_fields(members) =~= first);
        } else {
            let more = members.drop_first();
            assert forall|i: int| 0 <= i < more.len() implies (#[trigger] more[i]).1.valid() by {
                assert(more[i] == members[i + 1]);
            }
            lemma_scan_fields(depth, more);
            lemma_scan_one(at, ',');
            lemma_scan_concat(at, first, seq![',']);
            lemma_scan_concat(at, first + seq![','], json_fields(more));
            assert(json_fields(members) =~= first + seq![','] + json_fields(more));
        }
    }
}

/// Before a comma or a closing brace, the whole value is read.
proof fn lemma_value_len(at: Scan, value: Seq<char>, rest: Seq<char>)
    requires
        scan(at, value) == Some(outside(0)),
        rest.len() > 0,
        rest[0] == ',' || rest[0] == '}',
    ensures
        value_len(at, value + rest) == value.len(),
    decreases value.len(),
{
    let s = value + rest;
    if value.len() == 0 {
        assert(s =~= rest);
    } else {
        assert(s.drop_first() =~= value.drop_first() + rest);
        lemma_value_len(scan_char(at, value[0]), value.drop_first(), rest);
    }
}

proof fn lemma_hex_reads_back(c: char)
    requires
        (c as int) < 0x20,
    ensures
        hex_value('0') == 0,
        hex_value(hex_digit(c as int / 16)) == c as int / 16,
        hex_value(hex_digit(c as int % 16)) == c as int % 16,
        (c as int / 16 * 16 + c as int % 16) as char == c,
{
}

/// A string is read back from behind its opening quotation mark.
#[verifier::spinoff_prover]
#[verifier::rlimit(50)]
proof fn lemma_string_reads_back(s: Seq<char>, rest: Seq<char>)
    ensures
        read_string(json_chars(s) + seq!['"'] + rest) == (s, rest),
    decreases s.len(),
{
    let text = json_chars(s) + seq!['"'] + rest;
    if s.len() == 0 {
        assert(text.skip(1) =~= rest);
        assert(s =~= Seq::<char>::empty());
    } else {
        let more = s.drop_first();
        let behind = json_chars(more) + seq!['"'] + rest;
        let c = json_char(s[0]);
        lemma_string_reads_back(more, rest);
        assert(text =~= c + behind);
        assert(text.skip(c.len() as int) =~= behind);
        assert(s =~= seq![s[0]] + more);
        let n = s[0] as int;
        assert(text[0] == c[0]);
        if c.len() == 6 {
            assert(text[1] == 'u' && text[2] == '0' && text[3] == '0');
            assert(text[4] == hex_digit(n / 16) && text[5] == hex_digit(n % 16));
            lemma_hex_reads_back(s[0]);
            assert(read_string(text).0 =~= seq![s[0]] + more);
        } else if c.len() == 2 {
            assert(text[1] == c[1]);
            assert(unescaped(c[1]) == s[0]);
            assert(read_string(text).0 =~= seq![s[0]] + more);
        } else {
            assert(c =~= seq![s[0]]);
            assert(read_string(text).0 =~= seq![s[0]] + more);
        }
    }
}

/// Strings with the same JSON text are the same.
pub proof fn law_json_string_tells_strings_apart(a: Seq<char>, b: Seq<char>)
    requires
        json_string(a) == json_string(b),
    ensures
        a == b,
{
    let none = Seq::<char>::empty();
    lemma_string_reads_back(a, none);
    lemma_string_reads_back(b, none);
    assert(json_string(a).skip(1) =~= json_chars(a) + seq!['"'] + none);
    assert(json_string(b).skip(1) =~= json_chars(b) + seq!['"'] + none);
}

/// What stands behind the first member of an object.
spec fn behind_first(entries: Seq<(Seq<char>, Seq<char>)>) -> Seq<char> {
    if entries.len() == 1 {
        seq!['}']
    } else {
        seq![','] + json_members(entries.drop_first()) + seq!['}']
    }
}

#[verifier::spinoff_prover]
#[verifier::rlimit(50)]
proof fn lemma_members_first(entries: Seq<(Seq<char>, Seq<char>)>)
    requires
        entries.len() > 0,
    ensures
        json_members(entries) + seq!['}'] == seq!['"'] + (json_chars(entries[0].0) + seq!['"'] + (seq![
            ':',
        ] + entries[0].1 + behind_first(entries))),
{
    assert(json_members(entries) + seq!['}'] =~= seq!['"'] + (json_chars(entries[0].0) + seq!['"'] + (
    seq![':'] + entries[0].1 + behind_first(entries))));
}

/// The first member is read, and what stands behind it is left.
#[verifier::spinoff_prover]
#[verifier::rlimit(50)]
proof fn lemma_first_reads_back(entries: Seq<(Seq<char>, Seq<char>)>, text: Seq<char>, lead: Seq<char>)
    requires
        entries.len() > 0,
        is_json_value(entries[0].1),
        lead == seq![','] || lead.len() == 0,
        text == lead + (json_members(entries) + seq!['}']),
    ensures
        read_members(text) == seq![entries[0]] + read_members(behind_first(entries)),
{
    let (key, value) = entries[0];
    let rest = behind_first(entries);
    let colon = seq![':'] + value + rest;
    let quoted = json_chars(key) + seq!['"'] + colon;
    lemma_members_first(entries);
    assert(text.skip(lead.len() as int + 1) =~= quoted);
    assert(text[lead.len() as int] == '"');
    assert(lead.len() > 0 ==> text[0] == ',');
    lemma_string_reads_back(key, colon);
    assert(colon.skip(1) =~= value + rest);
    let tree = choose|tree: Json| tree.valid() && #[trigger] json_text(tree) == value;
    lemma_scan_value(0, tree);
    lemma_value_len(outside(0), value, rest);
    assert((value + rest).skip(value.len() as int) =~= rest);
    assert((value + rest).take(value.len() as int) =~= value);
    assert(rest.len() < text.len());
}

proof fn lemma_members_read_back(entries: Seq<(Seq<char>, Seq<char>)>, lead: Seq<char>)
    requires
        forall|i: int| 0 <= i < entries.len() ==> is_json_value(#[trigger] entries[i].1),
        lead == seq![','] && entries.len() > 0 || lead.len() == 0,
    ensures
        read_members(lead + (json_members(entries) + seq!['}'])) == entries,
    decreases entries.len(),
{
    let text = lead + (json_members(entries) + seq!['}']);
    if entries.len() == 0 {
        assert(text[0] == '}');
        assert(entries =~= Seq::<(Seq<char>, Seq<char>)>::empty());
    } else {
        let more = entries.drop_first();
        assert(is_json_value(entries[0].1));
        lemma_first_reads_back(entries, text, lead);
        assert forall|i: int| 0 <= i < more.len() implies is_json_value(#[trigger] more[i].1) by {
            assert(more[i] == entries[i + 1]);
        }
        let next: Seq<char> = if entries.len() == 1 {
            seq![]
        } else {
            seq![',']
        };
        lemma_members_read_back(more, next);
        assert(next + (json_members(more) + seq!['}']) =~= behind_first(entries));
        assert(entries =~= seq![entries[0]] + more);
    }
}

/// An object whose values are JSON values is read back from its text: every key with its value, in
/// their order, and nothing else.
pub proof fn law_object_reads_back(entries: Seq<(Seq<char>, Seq<char>)>)
    requires
        forall|i: int| 0 <= i < entries.len() ==> is_json_value(#[trigger] entries[i].1),
    ensures
        read_object(json_object(entries)) == entries,
{
    let none = Seq::<char>::empty();
    lemma_members_read_back(entries, none);
    assert(json_object(entries).skip(1) =~= none + (json_members(entries) + seq!['}']));
}

/// The text of an object tells its entries apart from all others.
pub proof fn law_object_tells_entries_apart(
    a: Seq<(Seq<char>, Seq<char>)>,
    b: Seq<(Seq<char>, Seq<char>)>,
)
    requires
        forall|i: int| 0 <= i < a.len() ==> is_json_value(#[trigger] a[i].1),
        forall|i: int| 0 <= i < b.len() ==> is_json_value(#[trigger] b[i].1),
        json_object(a) == json_object(b),
    ensures
        a == b,
{
    law_object_reads_back(a);
    law_object_reads_back(b);
}

proof fn lemma_no_control_concat(a: Seq<char>, b: Seq<char>)
    requires
        !has_control(a),
        !has_control(b),
    ensures
        !has_control(a + b),
{
    assert forall|i: int| 0 <= i < (a + b).len() implies !(#[trigger] (a + b)[i] < ' ') by {
        if i < a.len() {
            assert((a + b)[i] == a[i]);
        } else {
            assert((a + b)[i] == b[i - a.len()]);
        }
    }
}

proof fn lemma_json_char_no_control(c: char)
    ensures
        !has_control(json_char(c)),
{
    let n = c as int;
    if n < 0x20 {
        assert(hex_digit(n / 16) >= ' ' && hex_digit(n % 16) >= ' ');
    }
}

proof fn lemma_json_string_no_control(s: Seq<char>)
    ensures
        !has_control(json_chars(s)),
        !has_control(json_string(s)),
    decreases s.len(),
{
    if s.len() > 0 {
        let c = s[0];
        lemma_json_string_no_control(s.drop_first());
        lemma_json_char_no_control(c);
        lemma_no_control_concat(json_char(c), json_chars(s.drop_first()));
    }
    lemma_no_control_concat(seq!['"'], json_chars(s));
    lemma_no_control_concat(seq!['"'] + json_chars(s), seq!['"']);
}

proof fn lemma_value_no_control(value: Json)
    requires
        value.valid(),
    ensures
        !has_control(json_text(value)),
    decreases value,
{
    match value {
        Json::Text(s) => lemma_json_string_no_control(s),
        Json::Array(items) => {
            lemma_items_no_control(items);
            lemma_no_control_concat(seq!['['], json_items(items));
            lemma_no_control_concat(seq!['['] + json_items(items), seq![']']);
        },
        Json::Object(members) => {
            lemma_fields_no_control(members);
            lemma_no_control_concat(seq!['{'], json_fields(members));
            lemma_no_control_concat(seq!['{'] + json_fields(members), seq!['}']);
        },
        _ => {},
    }
}

proof fn lemma_items_no_control(items: Seq<Json>)
    requires
        forall|i: int| 0 <= i < items.len() ==> (#[trigger] items[i]).valid(),
    ensures
        !has_control(json_items(items)),
    decreases items,
{
    if items.len() > 0 {
        let first = json_text(items[0]);
        lemma_value_no_control(items[0]);
        if items.len() == 1 {
            assert(json_items(items) =~= first);
        } else {
            let more = items.drop_first();
            assert forall|i: int| 0 <= i < more.len() implies (#[trigger] more[i]).valid() by {
                assert(more[i] == items[i + 1]);
            }
            lemma_items_no_control(more);
            lemma_no_control_concat(seq![','], json_items(more));
            lemma_no_control_concat(first, seq![','] + json_items(more));
        }
    }
}

proof fn lemma_fields_no_control(members: Seq<(Seq<char>, Json)>)
    requires
        forall|i: int| 0 <= i < members.len() ==> (#[trigger] members[i]).1.valid(),
    ensures
        !has_control(json_fields(members)),
    decreases members,
{
    if members.len() > 0 {
        let key = json_string(members[0].0);
        let value = json_text(members[0].1);
        let first = key + seq![':'] + value;
        lemma_json_string_no_control(members[0].0);
        lemma_value_no_control(members[0].1);
        lemma_no_control_concat(key, seq![':']);
        lemma_no_control_concat(key + seq![':'], value);
        if members.len() == 1 {
            assert(json_fields(members) =~= first);
        } else {
            let more = members.drop_first();
            assert forall|i: int| 0 <= i < more.len() implies (#[trigger] more[i]).1.valid() by {
                assert(more[i] == members[i + 1]);
            }
            lemma_fields_no_control(more);
            lemma_no_control_concat(seq![','], json_fields(more));
            lemma_no_control_concat(first, seq![','] + json_fields(more));
        }
    }
}

proof fn lemma_members_no_control(entries: Seq<(Seq<char>, Seq<char>)>)
    requires
        forall|i: int| 0 <= i < entries.len() ==> is_json_value(#[trigger] entries[i].1),
    ensures
        !has_control(json_members(entries)),
    decreases entries.len(),
{
    if entries.len() > 0 {
        let key = json_string(entries[0].0);
        let value = entries[0].1;
        let first = key + seq![':'] + value;
        assert(is_json_value(value));
        let tree = choose|tree: Json| tree.valid() && #[trigger] json_text(tree) == value;
        lemma_json_string_no_control(entries[0].0);
        lemma_value_no_control(tree);
        lemma_no_control_concat(key, seq![':']);
        lemma_no_control_concat(key + seq![':'], value);
        if entries.len() == 1 {
            assert(json_members(entries) =~= first);
        } else {
            let more = entries.drop_first();
            assert forall|i: int| 0 <= i < more.len() implies is_json_value(#[trigger] more[i].1) by {
                assert(more[i] == entries[i + 1]);
            }
            lemma_members_no_control(more);
            lemma_no_control_concat(seq![','], json_members(more));
            lemma_no_control_concat(first, seq![','] + json_members(more));
        }
    }
}

/// The text of an object whose values are JSON values holds no control character.
pub proof fn law_object_has_no_control(entries: Seq<(Seq<char>, Seq<char>)>)
    requires
        forall|i: int| 0 <= i < entries.len() ==> is_json_value(#[trigger] entries[i].1),
    ensures
        !has_control(json_object(entries)),
{
    lemma_members_no_control(entries);
    lemma_no_control_concat(seq!['{'], json_members(entries));
    lemma_no_control_concat(seq!['{'] + json_members(entries), seq!['}']);
}

} // verus!
