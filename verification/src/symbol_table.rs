//! The symbol table: what each identifier of a document stands for.

use vstd::hash_map::StringHashMap;
use vstd::prelude::*;

verus! {

/// Maps identifiers to their values. For the identifier of a `${name}`
/// placeholder the value is the text to put in its place; for that of a
/// `${...name}` placeholder it is the path of the file to put there.
///
/// A table is filled when it is made and only read afterwards.
pub struct SymbolTable {
    variables: StringHashMap<String>,
}

/// The table that a list of bindings describes: where an identifier is bound
/// more than once, the last binding holds.
pub open spec fn bindings(pairs: Seq<(Seq<char>, Seq<char>)>) -> Map<Seq<char>, Seq<char>>
    decreases pairs.len(),
{
    if pairs.len() == 0 {
        Map::empty()
    } else {
        bindings(pairs.drop_last()).insert(pairs.last().0, pairs.last().1)
    }
}

/// The bindings that a slice of pairs of strings holds.
pub open spec fn pair_views(pairs: Seq<(&str, &str)>) -> Seq<(Seq<char>, Seq<char>)> {
    pairs.map_values(|p: (&str, &str)| (p.0@, p.1@))
}

impl View for SymbolTable {
    type V = Map<Seq<char>, Seq<char>>;

    closed spec fn view(&self) -> Map<Seq<char>, Seq<char>> {
        Map::new(
            |k: Seq<char>| self.variables@.contains_key(k),
            |k: Seq<char>| self.variables@[k]@,
        )
    }
}

impl SymbolTable {
    /// A table with no identifier.
    pub(crate) fn empty() -> (table: SymbolTable)
        ensures
            table@ == Map::<Seq<char>, Seq<char>>::empty(),
    {
        let table = SymbolTable { variables: StringHashMap::new() };
        assert(table@ =~= Map::<Seq<char>, Seq<char>>::empty());
        table
    }

    /// Binds `identifier` to `value`, in place of what it was bound to.
    pub(crate) fn bind(&mut self, identifier: String, value: String)
        ensures
            final(self)@ == old(self)@.insert(identifier@, value@),
    {
        let ghost key = identifier@;
        let ghost bound = value@;
        self.variables.insert(identifier, value);
        assert(self@ =~= old(self)@.insert(key, bound));
    }

    /// The table of the given bindings.
    pub fn new(variables: &[(&str, &str)]) -> (table: SymbolTable)
        ensures
            table@ == bindings(pair_views(variables@)),
    {
        let mut table = SymbolTable::empty();
        let mut i: usize = 0;
        while i < variables.len()
            invariant
                i <= variables@.len(),
                table@ == bindings(pair_views(variables@).take(i as int)),
            decreases variables@.len() - i,
        {
            let (identifier, value) = variables[i];
            table.bind(identifier.to_owned(), value.to_owned());
            proof {
                let all = pair_views(variables@);
                assert(all.take(i + 1).drop_last() =~= all.take(i as int));
                assert(all.take(i + 1).last() == (identifier@, value@));
            }
            i += 1;
        }
        assert(pair_views(variables@).take(i as int) =~= pair_views(variables@));
        table
    }

    /// Whether `identifier` is bound.
    pub fn has_variable(&self, identifier: &str) -> (found: bool)
        ensures
            found == self@.contains_key(identifier@),
    {
        self.variables.contains_key(identifier)
    }

    /// What `identifier` is bound to, if it is bound.
    pub fn get_variable(&self, identifier: &str) -> (value: Option<String>)
        ensures
            match value {
                Some(text) => self@.contains_key(identifier@) && text@ == self@[identifier@],
                None => !self@.contains_key(identifier@),
            },
    {
        match self.variables.get(identifier) {
            Some(text) => Some(text.clone()),
            None => None,
        }
    }
}

} // verus!
