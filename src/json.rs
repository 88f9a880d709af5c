//! JSON text for the values a record holds, and the framing of stored
//! entries around it.

use vstd::prelude::*;

verus! {

#[verifier::external_type_specification]
#[verifier::external_body]
pub struct ExValue(serde_json::Value);

/// Relies on the derived `Clone` of serde_json::Value: the copy is the same
/// value.
pub assume_specification[ <serde_json::Value as Clone>::clone ](v: &serde_json::Value) -> (r:
    serde_json::Value)
    ensures
        r == *v,
;

/// The fields of a record as a sequence of (name, value) pairs, in the order
/// in which they were first set.
pub type Fields = Seq<(Seq<char>, serde_json::Value)>;

/// No field name occurs twice.
pub open spec fn names_distinct(f: Fields) -> bool {
    forall|i: int, j: int| 0 <= i < j < f.len() ==> f[i].0 != f[j].0
}

/// The field `name` occurs in `f`.
pub open spec fn has_name(f: Fields, name: Seq<char>) -> bool {
    exists|i: int| 0 <= i < f.len() && f[i].0 == name
}

/// The record that a field sequence stands for: each name mapped to the value
/// next to it.
pub open spec fn field_map(f: Fields) -> Map<Seq<char>, serde_json::Value> {
    Map::new(
        |name: Seq<char>| has_name(f, name),
        |name: Seq<char>| f[choose|i: int| 0 <= i < f.len() && f[i].0 == name].1,
    )
}

/// Where names are distinct, the pair at `i` is what the map holds for its name.
pub proof fn lemma_field_at(f: Fields, i: int)
    requires
        names_distinct(f),
        0 <= i < f.len(),
    ensures
        field_map(f).contains_key(f[i].0),
        field_map(f)[f[i].0] == f[i].1,
{
    let name = f[i].0;
    assert(has_name(f, name));
    let j = choose|j: int| 0 <= j < f.len() && f[j].0 == name;
    assert(j == i);
}

/// `f` with the field `name` set to `v`: the value of an existing field is
/// overwritten in place, and a new field goes last.
pub open spec fn set_field(f: Fields, name: Seq<char>, v: serde_json::Value) -> Fields {
    if has_name(f, name) {
        f.update(choose|i: int| 0 <= i < f.len() && f[i].0 == name, (name, v))
    } else {
        f.push((name, v))
    }
}

/// The shallow merge of `g` into `f`: each field of `g`, in order, set in `f`.
pub open spec fn merge_fields(f: Fields, g: Fields) -> Fields
    decreases g.len(),
{
    if g.len() == 0 {
        f
    } else {
        set_field(merge_fields(f, g.drop_last()), g.last().0, g.last().1)
    }
}

/// Setting a field keeps names distinct and sets that one name in the map.
pub proof fn lemma_set_field(f: Fields, name: Seq<char>, v: serde_json::Value)
    requires
        names_distinct(f),
    ensures
        names_distinct(set_field(f, name, v)),
        field_map(set_field(f, name, v)) == field_map(f).insert(name, v),
{
    let s = set_field(f, name, v);
    let m = field_map(f).insert(name, v);
    if has_name(f, name) {
        let i = choose|i: int| 0 <= i < f.len() && f[i].0 == name;
        assert(s.len() == f.len());
        assert forall|a: int, b: int| 0 <= a < b < s.len() implies s[a].0 != s[b].0 by {
            if a != i && b != i {
                assert(s[a] == f[a] && s[b] == f[b]);
            }
        }
        assert forall|k: Seq<char>| has_name(s, k) <==> m.contains_key(k) by {
            if has_name(s, k) {
                let j = choose|j: int| 0 <= j < s.len() && s[j].0 == k;
                if j != i {
                    assert(f[j].0 == k);
                }
            }
            if m.contains_key(k) && k != name {
                let j = choose|j: int| 0 <= j < f.len() && f[j].0 == k;
                assert(s[j].0 == k);
            }
            if k == name {
                assert(s[i].0 == k);
            }
        }
    } else {
        assert forall|a: int, b: int| 0 <= a < b < s.len() implies s[a].0 != s[b].0 by {
            if b == f.len() {
                assert(f[a].0 == s[a].0);
            }
        }
        assert forall|k: Seq<char>| has_name(s, k) <==> m.contains_key(k) by {
            if has_name(s, k) {
                let j = choose|j: int| 0 <= j < s.len() && s[j].0 == k;
                if j < f.len() {
                    assert(f[j].0 == k);
                }
            }
            if m.contains_key(k) && k != name {
                let j = choose|j: int| 0 <= j < f.len() && f[j].0 == k;
                assert(s[j].0 == k);
            }
            if k == name {
                assert(s[f.len() as int].0 == k);
            }
        }
    }
    assert forall|k: Seq<char>| #[trigger] m.contains_key(k) implies field_map(s)[k] == m[k] by {
        assert(has_name(s, k));
        let j = choose|j: int| 0 <= j < s.len() && s[j].0 == k;
        lemma_field_at(s, j);
        if k != name {
            assert(j < f.len());
            assert(s[j] == f[j]);
            lemma_field_at(f, j);
        }
    }
    assert(field_map(s) =~= m);
}

/// Merging keeps names distinct, and the merged record is the old one with
/// every field of `g` put over it.
pub proof fn lemma_merge_fields(f: Fields, g: Fields)
    requires
        names_distinct(f),
        names_distinct(g),
    ensures
        names_distinct(merge_fields(f, g)),
        field_map(merge_fields(f, g)) == field_map(f).union_prefer_right(field_map(g)),
    decreases g.len(),
{
    if g.len() == 0 {
        assert(field_map(g) =~= Map::empty());
        assert(field_map(f).union_prefer_right(field_map(g)) =~= field_map(f));
    } else {
        let h = g.drop_last();
        let p = g.last();
        assert(names_distinct(h));
        lemma_merge_fields(f, h);
        lemma_set_field(merge_fields(f, h), p.0, p.1);
        assert(!has_name(h, p.0)) by {
            if has_name(h, p.0) {
                let j = choose|j: int| 0 <= j < h.len() && h[j].0 == p.0;
                assert(g[j].0 == g[g.len() - 1].0);
            }
        }
        assert(h.push(p) =~= g);
        lemma_set_field(h, p.0, p.1);
        assert(field_map(f).union_prefer_right(field_map(h)).insert(p.0, p.1) =~= field_map(
            f,
        ).union_prefer_right(field_map(g)));
    }
}

/// The compact JSON text of a value, as serde_json writes it.
pub uninterp spec fn json_text(v: serde_json::Value) -> Seq<char>;

/// The hexadecimal digit `d`, in lower case.
pub open spec fn hex_digit(d: nat) -> char {
    seq!['0', '1', '2', '3', '4', '5', '6', '7', '8', '9', 'a', 'b', 'c', 'd', 'e', 'f'][d as int]
}

/// How one character is written inside a JSON string: the quote and the
/// backslash behind a backslash, the five control characters with a short
/// escape by it, every other control character as `\u00xx`, and the rest as
/// it is.
pub open spec fn escaped(c: char) -> Seq<char> {
    if c == '"' {
        seq!['\\', '"']
    } else if c == '\\' {
        seq!['\\', '\\']
    } else if c == '\x08' {
        seq!['\\', 'b']
    } else if c == '\t' {
        seq!['\\', 't']
    } else if c == '\n' {
        seq!['\\', 'n']
    } else if c == '\x0c' {
        seq!['\\', 'f']
    } else if c == '\r' {
        seq!['\\', 'r']
    } else if (c as u32) < 0x20 {
        seq!['\\', 'u', '0', '0', hex_digit((c as u32 / 16) as nat), hex_digit((c as u32 % 16) as nat)]
    } else {
        seq![c]
    }
}

/// The characters of `s`, each written as `escaped` says.
pub open spec fn escaped_text(s: Seq<char>) -> Seq<char>
    decreases s.len(),
{
    if s.len() == 0 {
        Seq::empty()
    } else {
        escaped_text(s.drop_last()) + escaped(s.last())
    }
}

/// A string written as a JSON string literal.
pub open spec fn quoted(s: Seq<char>) -> Seq<char> {
    seq!['"'] + escaped_text(s) + seq!['"']
}

/// Relies on serde_json::to_string, applied to a JSON value: it returns that
/// value's compact JSON text. It cannot fail here: its only errors come from
/// the writer, which is a `Vec`, or from a map key that is not a string,
/// which a `Value` cannot hold.
#[verifier::external_body]
pub(crate) fn value_text(v: &serde_json::Value) -> (r: String)
    ensures
        r@ == json_text(*v),
{
    serde_json::to_string(v).unwrap_or_default()
}

/// Relies on serde_json::to_string, applied to a string: it returns the
/// string as a JSON string literal, escaped by serde_json's table. It cannot
/// fail here: its only errors come from the writer, which is a `Vec`.
#[verifier::external_body]
pub(crate) fn string_text(s: &str) -> (r: String)
    ensures
        r@ == quoted(s@),
{
    serde_json::to_string(s).unwrap_or_default()
}

/// Relies on serde_json::to_string, applied to a list of strings: it returns
/// the compact JSON array of those strings as JSON string literals. It cannot
/// fail here: its only errors come from the writer, which is a `Vec`.
#[verifier::external_body]
pub(crate) fn string_list_text(texts: &Vec<String>) -> (r: String)
    ensures
        r@ == list_text(texts@.map_values(|t: String| t@)),
{
    serde_json::to_string(texts).unwrap_or_default()
}

/// The decimal digit `d`.
pub open spec fn digit(d: nat) -> char {
    seq!['0', '1', '2', '3', '4', '5', '6', '7', '8', '9'][d as int]
}

/// The decimal numeral of `n`, without leading zeros.
pub open spec fn decimal(n: nat) -> Seq<char>
    decreases n,
{
    if n < 10 {
        seq![digit(n)]
    } else {
        decimal(n / 10).push(digit(n % 10))
    }
}

/// The decimal numeral of `n`.
pub fn decimal_text(n: usize) -> (r: String)
    ensures
        r@ == decimal(n as nat),
    decreases n,
{
    let digits = "0123456789";
    proof {
        reveal_strlit("0123456789");
    }
    let d = n % 10;
    let last = digits.substring_char(d, d + 1);
    assert(last@ == seq![digit(d as nat)]);
    if n < 10 {
        last.to_string()
    } else {
        let mut r = decimal_text(n / 10);
        r.append(last);
        r
    }
}

/// The opening of every stored entry, up to its key: `{"_key":`.
pub open spec fn key_prefix() -> Seq<char> {
    seq!['{', '"', '_', 'k', 'e', 'y', '"', ':']
}

/// The members that follow the key in an entry: `,"name":value` for each field.
pub open spec fn members_text(f: Fields) -> Seq<char>
    decreases f.len(),
{
    if f.len() == 0 {
        Seq::empty()
    } else {
        members_text(f.drop_last()) + seq![','] + quoted(f.last().0) + seq![':'] + json_text(
            f.last().1,
        )
    }
}

/// The stored text of the entry under `key` whose record has the fields `f`:
/// a JSON object holding the key as `_key`, then each field in order.
pub open spec fn entry_text(key: usize, f: Fields) -> Seq<char> {
    key_prefix() + decimal(key as nat) + members_text(f) + seq!['}']
}

/// The items of a JSON array of strings, without its brackets.
pub open spec fn list_items(s: Seq<Seq<char>>) -> Seq<char>
    decreases s.len(),
{
    if s.len() == 0 {
        Seq::empty()
    } else if s.len() == 1 {
        quoted(s[0])
    } else {
        list_items(s.drop_last()) + seq![','] + quoted(s.last())
    }
}

/// A JSON array whose items are the strings of `s`, in order.
pub open spec fn list_text(s: Seq<Seq<char>>) -> Seq<char> {
    seq!['['] + list_items(s) + seq![']']
}

} // verus!
