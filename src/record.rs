//! Records: schema-less mappings from field names to JSON values.

use vstd::prelude::*;

use crate::json::{
    Fields, decimal_text, entry_text, field_map, has_name, key_prefix, lemma_field_at,
    lemma_set_field, members_text, merge_fields, names_distinct, set_field, value_text,
    string_text,
};

verus! {

/// A record: each field name occurs once, and fields keep the order in which
/// they were first set.
pub struct Record {
    fields: Vec<(String, serde_json::Value)>,
}

impl View for Record {
    type V = Fields;

    closed spec fn view(&self) -> Fields {
        self.fields@.map_values(|p: (String, serde_json::Value)| (p.0@, p.1))
    }
}

impl Record {
    #[verifier::type_invariant]
    pub(crate) closed spec fn inv(&self) -> bool {
        names_distinct(self@)
    }

    /// The record with no fields.
    pub fn new() -> (r: Record)
        ensures
            r@ == Seq::<(Seq<char>, serde_json::Value)>::empty(),
    {
        let r = Record { fields: Vec::new() };
        assert(r@ =~= Seq::<(Seq<char>, serde_json::Value)>::empty());
        r
    }

    /// The number of fields.
    pub fn len(&self) -> (n: usize)
        ensures
            n == self@.len(),
    {
        self.fields.len()
    }

    /// Whether the record has no field.
    pub fn is_empty(&self) -> (b: bool)
        ensures
            b == (self@.len() == 0),
    {
        self.fields.len() == 0
    }

    /// The position of the field `name`, if the record has it.
    fn position(&self, name: &String) -> (r: Option<usize>)
        ensures
            match r {
                Some(i) => i < self@.len() && self@[i as int].0 == name@,
                None => !has_name(self@, name@),
            },
    {
        let mut i: usize = 0;
        while i < self.fields.len()
            invariant
                i <= self.fields.len(),
                forall|j: int| 0 <= j < i ==> self@[j].0 != name@,
            decreases self.fields.len() - i,
        {
            if self.fields[i].0 == *name {
                return Some(i);
            }
            i = i + 1;
        }
        None
    }

    /// The value of the field `name`, if the record has it.
    pub fn get(&self, name: &String) -> (r: Option<&serde_json::Value>)
        ensures
            match r {
                Some(v) => field_map(self@).contains_key(name@) && *v == field_map(self@)[name@],
                None => !field_map(self@).contains_key(name@),
            },
    {
        proof {
            use_type_invariant(self);
        }
        match self.position(name) {
            Some(i) => {
                proof {
                    lemma_field_at(self@, i as int);
                }
                Some(&self.fields[i].1)
            },
            None => None,
        }
    }

    /// Sets the field `name` to `value`: an existing field is overwritten in
    /// place, a new one is added last.
    pub fn set(&mut self, name: String, value: serde_json::Value)
        ensures
            final(self)@ == set_field(old(self)@, name@, value),
    {
        proof {
            use_type_invariant(&*self);
            lemma_set_field(self@, name@, value);
        }
        let ghost target = set_field(self@, name@, value);
        let found = self.position(&name);
        let mut fields: Vec<(String, serde_json::Value)> = Vec::new();
        core::mem::swap(&mut self.fields, &mut fields);
        match found {
            Some(i) => {
                proof {
                    let j = choose|j: int| 0 <= j < fields@.len() && fields@[j].0@ == name@;
                    assert(old(self)@[j].0 == name@);
                    assert(j == i);
                }
                fields.set(i, (name, value));
            },
            None => {
                fields.push((name, value));
            },
        }
        assert(fields@.map_values(|p: (String, serde_json::Value)| (p.0@, p.1)) =~= target);
        self.fields = fields;
    }

    /// A copy of this record.
    pub fn duplicate(&self) -> (r: Record)
        ensures
            r@ == self@,
    {
        proof {
            use_type_invariant(self);
        }
        let mut fields: Vec<(String, serde_json::Value)> = Vec::new();
        let mut i: usize = 0;
        while i < self.fields.len()
            invariant
                i <= self.fields.len(),
                fields@.len() == i,
                fields@.map_values(|p: (String, serde_json::Value)| (p.0@, p.1)) == self@.take(
                    i as int,
                ),
            decreases self.fields.len() - i,
        {
            let name = self.fields[i].0.clone();
            let value = self.fields[i].1.clone();
            assert((name@, value) == self@[i as int]);
            let ghost prev = fields@;
            fields.push((name, value));
            proof {
                let mapped = fields@.map_values(|p: (String, serde_json::Value)| (p.0@, p.1));
                assert forall|j: int| 0 <= j <= i implies mapped[j] == self@.take(i + 1)[j] by {
                    if j < i {
                        assert(fields@[j] == prev[j]);
                        assert(prev.map_values(|p: (String, serde_json::Value)| (p.0@, p.1))[j]
                            == self@.take(i as int)[j]);
                    }
                }
                assert(mapped =~= self@.take(i + 1));
            }
            i = i + 1;
        }
        assert(self@.take(i as int) =~= self@);
        Record { fields }
    }

    /// Merges `other` into this record: each of its fields, in order, is set
    /// here; fields that `other` does not name are left as they are.
    pub fn merge(&mut self, other: Record)
        ensures
            final(self)@ == merge_fields(old(self)@, other@),
    {
        proof {
            use_type_invariant(&other);
        }
        let ghost g = other@;
        let ghost start = self@;
        let Record { fields: mut rest } = other;
        let n = rest.len();
        let mut i: usize = 0;
        while i < n
            invariant
                i <= n,
                n == g.len(),
                rest@.map_values(|p: (String, serde_json::Value)| (p.0@, p.1)) == g.skip(i as int),
                self@ == merge_fields(start, g.take(i as int)),
            decreases n - i,
        {
            let ghost before = rest@;
            let ghost mb = before.map_values(|p: (String, serde_json::Value)| (p.0@, p.1));
            assert(mb.len() == before.len());
            assert(mb[0] == g[i as int]);
            let (name, value) = rest.remove(0);
            proof {
                let mr = rest@.map_values(|p: (String, serde_json::Value)| (p.0@, p.1));
                assert forall|j: int| 0 <= j < mr.len() implies mr[j] == g.skip(i + 1)[j] by {
                    assert(rest@[j] == before[j + 1]);
                    assert(mb[j + 1] == g.skip(i as int)[j + 1]);
                }
                assert(mr =~= g.skip(i + 1));
                assert(g.take(i + 1).drop_last() =~= g.take(i as int));
                assert(g.take(i + 1).last() == (name@, value));
            }
            self.set(name, value);
            i = i + 1;
        }
        assert(g.take(n as int) =~= g);
    }

    /// The stored text of this record under `key`: `{"_key":key,...}` with
    /// each field in order.
    pub fn encode(&self, key: usize) -> (r: String)
        ensures
            r@ == entry_text(key, self@),
    {
        let prefix = "{\"_key\":";
        let colon = ":";
        let comma = ",";
        let close = "}";
        proof {
            reveal_strlit("{\"_key\":");
            reveal_strlit(":");
            reveal_strlit(",");
            reveal_strlit("}");
        }
        assert(prefix@ =~= key_prefix());
        let mut out = prefix.to_string();
        let k = decimal_text(key);
        out.append(k.as_str());
        let ghost head = out@;
        let mut i: usize = 0;
        while i < self.fields.len()
            invariant
                i <= self.fields.len(),
                colon@ == seq![':'],
                comma@ == seq![','],
                out@ == head + members_text(self@.take(i as int)),
            decreases self.fields.len() - i,
        {
            let name = string_text(self.fields[i].0.as_str());
            let value = value_text(&self.fields[i].1);
            out.append(comma);
            out.append(name.as_str());
            out.append(colon);
            out.append(value.as_str());
            proof {
                let t = self@.take(i + 1);
                assert(t.drop_last() =~= self@.take(i as int));
                assert(t.last() == self@[i as int]);
            }
            i = i + 1;
        }
        assert(self@.take(i as int) =~= self@);
        out.append(close);
        out
    }
}

} // verus!
