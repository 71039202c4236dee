//! The table of variables: for each name the text that defines it.

use std::collections::HashMap;
use vstd::prelude::*;
use vstd::relations::injective_on;
use vstd::set_lib::lemma_map_size;
use vstd::std_specs::hash::group_hash_axioms;

verus! {

/// Whether `code` is the number of a character.
pub open spec fn is_char_code(code: u32) -> bool {
    code <= 0xD7FF || (0xE000 <= code && code <= 0x10FFFF)
}

/// The definitions of variables by name, each kept as the text that was
/// given for it. The table is viewed as a map from names to texts.
pub struct VariableTable {
    definitions: HashMap<u32, String>,
}

impl View for VariableTable {
    type V = Map<char, Seq<char>>;

    closed spec fn view(&self) -> Map<char, Seq<char>> {
        by_name(self.definitions@)
    }
}

/// A map keyed by the numbers of characters, as a map keyed by the
/// characters.
spec fn by_name(definitions: Map<u32, String>) -> Map<char, Seq<char>> {
    Map::new(
        |name: char| definitions.contains_key(name as u32),
        |name: char| definitions[name as u32]@,
    )
}

proof fn lemma_codes(c: char, d: char)
    ensures
        (c as u32) as char == c,
        c != d ==> c as u32 != d as u32,
{
}

proof fn lemma_by_name_insert(definitions: Map<u32, String>, name: char, text: String)
    ensures
        by_name(definitions.insert(name as u32, text)) == by_name(definitions).insert(name, text@),
{
    let after = by_name(definitions.insert(name as u32, text));
    let expected = by_name(definitions).insert(name, text@);
    assert forall|d: char| after.dom().contains(d) == expected.dom().contains(d) by {
        lemma_codes(d, name);
    }
    assert forall|d: char| after.dom().contains(d) implies after[d] == expected[d] by {
        lemma_codes(d, name);
    }
    assert(after =~= expected);
}

proof fn lemma_by_name_len(definitions: Map<u32, String>)
    requires
        definitions.dom().finite(),
        forall|code: u32| #[trigger] definitions.contains_key(code) ==> is_char_code(code),
    ensures
        by_name(definitions).dom().finite(),
        by_name(definitions).dom().len() == definitions.dom().len(),
{
    let codes = definitions.dom();
    let names = by_name(definitions).dom();
    let name_of = |code: u32| code as char;
    assert(injective_on(name_of, codes));
    assert forall|name: char| names.contains(name) implies codes.map(name_of).contains(name) by {
        lemma_codes(name, name);
        assert(codes.contains(name as u32));
        assert(name_of(name as u32) == name);
    }
    assert forall|name: char| codes.map(name_of).contains(name) implies names.contains(name) by {
        let code = choose|code: u32| codes.contains(code) && name_of(code) == name;
        assert(name as u32 == code);
    }
    assert(codes.map(name_of) =~= names);
    lemma_map_size(codes, names, name_of);
}

impl VariableTable {
    #[verifier::type_invariant]
    spec fn keyed_by_characters(&self) -> bool {
        forall|code: u32| #[trigger] self.definitions@.contains_key(code) ==> is_char_code(code)
    }

    /// A table without definitions.
    pub fn new() -> (table: Self)
        ensures
            table@ == Map::<char, Seq<char>>::empty(),
    {
        let table = VariableTable { definitions: HashMap::new() };
        assert(table@ =~= Map::<char, Seq<char>>::empty());
        table
    }

    /// Defines `name` as `definition`; an earlier definition of `name` is
    /// replaced.
    pub fn insert(&mut self, name: char, definition: String)
        ensures
            final(self)@ == old(self)@.insert(name, definition@),
    {
        broadcast use group_hash_axioms;

        proof {
            use_type_invariant(&*self);
        }
        let mut definitions: HashMap<u32, String> = HashMap::new();
        std::mem::swap(&mut definitions, &mut self.definitions);
        definitions.insert(name as u32, definition);
        std::mem::swap(&mut definitions, &mut self.definitions);
        proof {
            lemma_by_name_insert(old(self).definitions@, name, definition);
        }
    }

    /// The definition of `name`, if it has one.
    pub fn get(&self, name: char) -> (found: Option<&String>)
        ensures
            match found {
                Some(definition) => self@.contains_key(name) && self@[name] == definition@,
                None => !self@.contains_key(name),
            },
    {
        broadcast use group_hash_axioms;

        let code: u32 = name as u32;
        self.definitions.get(&code)
    }

    /// The number of variables defined.
    pub fn len(&self) -> (count: usize)
        ensures
            self@.dom().finite(),
            count == self@.dom().len(),
    {
        broadcast use group_hash_axioms;

        proof {
            use_type_invariant(self);
            lemma_by_name_len(self.definitions@);
        }
        self.definitions.len()
    }

    /// Whether no variable is defined.
    pub fn is_empty(&self) -> (empty: bool)
        ensures
            empty == (self@.dom().len() == 0),
    {
        self.len() == 0
    }
}

} // verus!
