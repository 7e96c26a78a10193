//! The symbol table: one entry per declared identifier.

use vstd::prelude::*;
use crate::ast::{TypeValue, ValV, val_view};
use crate::error::SemanticError;

verus! {

/// The type of a symbol.
#[derive(Debug, PartialEq, Eq)]
pub enum Types {
    Integer,
    Float,
    Char,
    Array(Box<Types>, i16),
}

impl Clone for Types {
    fn clone(&self) -> (r: Self)
        ensures
            r == *self,
        decreases self,
    {
        match self {
            Types::Integer => Types::Integer,
            Types::Float => Types::Float,
            Types::Char => Types::Char,
            Types::Array(t, n) => Types::Array(Box::new((**t).clone()), *n),
        }
    }
}

/// An entry of the symbol table.  `Value` holds what the variable was last
/// given (one element; empty when it was never given one); `size` is set for
/// arrays only.
#[allow(non_snake_case)]
#[derive(Debug)]
pub struct Symbol {
    pub Identifier: String,
    pub Type: Option<Types>,
    pub Is_Constant: Option<bool>,
    pub Address: Option<usize>,
    pub Value: Vec<Option<TypeValue>>,
    pub size: Option<i16>,
}

impl Symbol {
    #[allow(non_snake_case)]
    pub fn new(
        Identifier: String,
        Type: Option<Types>,
        Is_Constant: Option<bool>,
        Address: Option<usize>,
        Value: Vec<Option<TypeValue>>,
        size: Option<i16>,
    ) -> (s: Self)
        ensures
            s == (Symbol { Identifier, Type, Is_Constant, Address, Value, size }),
    {
        Symbol { Identifier, Type, Is_Constant, Address, Value, size }
    }
}

/// What an entry says, its identifier aside: the value is the first element
/// of `Value`, when there is one.
pub struct SymV {
    pub ty: Option<Types>,
    pub is_const: Option<bool>,
    pub address: Option<usize>,
    pub value: Option<ValV>,
    pub size: Option<i16>,
}

pub open spec fn sym_view(s: Symbol) -> SymV {
    SymV {
        ty: s.Type,
        is_const: s.Is_Constant,
        address: s.Address,
        value: if s.Value@.len() > 0 && s.Value@[0] is Some {
            Some(val_view(s.Value@[0].unwrap()))
        } else {
            None
        },
        size: s.size,
    }
}

/// Whether some entry of `s` has identifier `k`.
pub open spec fn has_key(s: Seq<Symbol>, k: Seq<char>) -> bool {
    exists|i: int| 0 <= i < s.len() && #[trigger] s[i].Identifier@ == k
}

/// The entry of `s` with identifier `k`, if any.
pub open spec fn lookup(s: Seq<Symbol>, k: Seq<char>) -> Option<Symbol> {
    if has_key(s, k) {
        Some(s[choose|i: int| 0 <= i < s.len() && #[trigger] s[i].Identifier@ == k])
    } else {
        None
    }
}

/// No two entries share an identifier.
pub open spec fn distinct_keys(s: Seq<Symbol>) -> bool {
    forall|i: int, j: int|
        0 <= i < s.len() && 0 <= j < s.len() && i != j ==> #[trigger] s[i].Identifier@
            != #[trigger] s[j].Identifier@
}

proof fn lemma_lookup_at(s: Seq<Symbol>, i: int)
    requires
        distinct_keys(s),
        0 <= i < s.len(),
    ensures
        lookup(s, s[i].Identifier@) == Some(s[i]),
{
    let k = s[i].Identifier@;
    assert(has_key(s, k));
    let j = choose|j: int| 0 <= j < s.len() && #[trigger] s[j].Identifier@ == k;
    assert(s[j].Identifier@ == k);
}

proof fn lemma_lookup_push(s: Seq<Symbol>, sym: Symbol, k: Seq<char>)
    requires
        distinct_keys(s),
        !has_key(s, sym.Identifier@),
    ensures
        distinct_keys(s.push(sym)),
        lookup(s.push(sym), k) == if k == sym.Identifier@ {
            Some(sym)
        } else {
            lookup(s, k)
        },
{
    let t = s.push(sym);
    assert forall|i: int, j: int|
        0 <= i < t.len() && 0 <= j < t.len() && i != j implies #[trigger] t[i].Identifier@
        != #[trigger] t[j].Identifier@ by {
        if i < s.len() {
            assert(t[i] == s[i]);
        }
        if j < s.len() {
            assert(t[j] == s[j]);
        }
    }
    if k == sym.Identifier@ {
        lemma_lookup_at(t, s.len() as int);
    } else if has_key(s, k) {
        let j = choose|j: int| 0 <= j < s.len() && #[trigger] s[j].Identifier@ == k;
        assert(t[j] == s[j]);
        lemma_lookup_at(s, j);
        lemma_lookup_at(t, j);
    } else if has_key(t, k) {
        let j = choose|j: int| 0 <= j < t.len() && #[trigger] t[j].Identifier@ == k;
        assert(t[j] == s[j]);
    }
}

/// The table of symbols, in the order they were entered.
pub struct SymbolTable {
    symbols: Vec<Symbol>,
}

impl View for SymbolTable {
    type V = Map<Seq<char>, SymV>;

    /// What each identifier with an entry stands for.
    open spec fn view(&self) -> Map<Seq<char>, SymV> {
        Map::new(|k: Seq<char>| self.get_spec(k) is Some, |k: Seq<char>| sym_view(self.get_spec(k).unwrap()))
    }
}

impl SymbolTable {
    /// The entries, in the order they were entered.
    pub closed spec fn entries(&self) -> Seq<Symbol> {
        self.symbols@
    }

    /// The entry for identifier `k`, if any.
    pub open spec fn get_spec(&self, k: Seq<char>) -> Option<Symbol> {
        lookup(self.entries(), k)
    }

    pub open spec fn wf(&self) -> bool {
        distinct_keys(self.entries())
    }

    /// Every entry holds at most one value.
    pub open spec fn single_valued(&self) -> bool {
        forall|i: int| 0 <= i < self.entries().len() ==> #[trigger] self.entries()[i].Value@.len() <= 1
    }

    /// An empty table.
    pub fn new() -> (t: Self)
        ensures
            t.wf(),
            t.entries().len() == 0,
            t.single_valued(),
            forall|k: Seq<char>| #[trigger] t.get_spec(k) is None,
    {
        SymbolTable { symbols: Vec::new() }
    }

    /// Number of entries.
    pub fn len(&self) -> (n: usize)
        ensures
            n == self.entries().len(),
    {
        self.symbols.len()
    }

    /// The entry at position `i` (in the order of entering).
    pub fn entry(&self, i: usize) -> (s: &Symbol)
        requires
            i < self.entries().len(),
        ensures
            *s == self.entries()[i as int],
    {
        &self.symbols[i]
    }

    /// Position of the entry for `name`, if any.
    fn position_of(&self, name: &String) -> (r: Option<usize>)
        requires
            self.wf(),
        ensures
            match r {
                Some(i) => i < self.entries().len() && self.entries()[i as int].Identifier@ == name@,
                None => !has_key(self.entries(), name@),
            },
    {
        let mut i: usize = 0;
        while i < self.symbols.len()
            invariant
                i <= self.symbols@.len(),
                forall|j: int| 0 <= j < i ==> #[trigger] self.symbols@[j].Identifier@ != name@,
            decreases self.symbols@.len() - i,
        {
            if self.symbols[i].Identifier == *name {
                return Some(i);
            }
            i = i + 1;
        }
        None
    }

    /// The entry for `name`, if any.
    pub fn get(&self, name: &String) -> (r: Option<&Symbol>)
        requires
            self.wf(),
        ensures
            match r {
                Some(s) => self.get_spec(name@) == Some(*s),
                None => self.get_spec(name@) is None,
            },
    {
        match self.position_of(name) {
            Some(i) => {
                proof {
                    lemma_lookup_at(self.entries(), i as int);
                }
                Some(&self.symbols[i])
            },
            None => None,
        }
    }

    /// Whether `name` has an entry.
    pub fn contains_key(&self, name: &String) -> (b: bool)
        requires
            self.wf(),
        ensures
            b == self.get_spec(name@) is Some,
    {
        self.position_of(name).is_some()
    }

    /// Enters `symbol`, unless its identifier already has an entry; then the
    /// table is left as it was and the error names the identifier.
    pub fn insert(&mut self, symbol: Symbol) -> (r: Result<(), SemanticError>)
        requires
            old(self).wf(),
        ensures
            final(self).wf(),
            match r {
                Ok(()) => {
                    &&& old(self).get_spec(symbol.Identifier@) is None
                    &&& final(self).entries() == old(self).entries().push(symbol)
                },
                Err(e) => {
                    &&& old(self).get_spec(symbol.Identifier@) is Some
                    &&& final(self).entries() == old(self).entries()
                    &&& e matches SemanticError::DuplicateVariableDeclaration(x)
                    &&& x@ == symbol.Identifier@
                },
            },
    {
        match self.position_of(&symbol.Identifier) {
            Some(_) => Err(SemanticError::DuplicateVariableDeclaration(symbol.Identifier)),
            None => {
                self.symbols.push(symbol);
                proof {
                    let s = self.symbols@;
                    assert forall|i: int, j: int|
                        0 <= i < s.len() && 0 <= j < s.len() && i != j implies #[trigger] s[i].Identifier@
                        != #[trigger] s[j].Identifier@ by {
                        if i == s.len() - 1 {
                            assert(old(self).symbols@[j] == s[j]);
                        } else if j == s.len() - 1 {
                            assert(old(self).symbols@[i] == s[i]);
                        } else {
                            assert(old(self).symbols@[i] == s[i]);
                            assert(old(self).symbols@[j] == s[j]);
                        }
                    }
                }
                Ok(())
            },
        }
    }

    /// Gives the entry for `identifier` the value `value`; the error names the
    /// identifier when it has no entry.  Nothing else changes.
    pub fn update(&mut self, identifier: &String, value: Vec<Option<TypeValue>>) -> (r: Result<(), SemanticError>)
        requires
            old(self).wf(),
        ensures
            final(self).wf(),
            final(self).entries().len() == old(self).entries().len(),
            old(self).single_valued() && value@.len() <= 1 ==> final(self).single_valued(),
            match r {
                Ok(()) => {
                    &&& old(self).get_spec(identifier@) is Some
                    &&& forall|k: Seq<char>| #[trigger] final(self).get_spec(k) == if k == identifier@ {
                        Some(Symbol { Value: value, ..old(self).get_spec(k).unwrap() })
                    } else {
                        old(self).get_spec(k)
                    }
                },
                Err(e) => {
                    &&& old(self).get_spec(identifier@) is None
                    &&& final(self).entries() == old(self).entries()
                    &&& e matches SemanticError::SymbolTableError(x)
                    &&& x@ == identifier@
                },
            },
    {
        match self.position_of(identifier) {
            None => Err(SemanticError::SymbolTableError(identifier.clone())),
            Some(i) => {
                let ghost old_s = self.symbols@;
                proof {
                    lemma_lookup_at(old_s, i as int);
                }
                self.symbols[i].Value = value;
                proof {
                    self.lemma_changed_at(old_s, i as int);
                }
                Ok(())
            },
        }
    }

    /// Gives the entry for `identifier` the array size `size`.
    pub fn set_size(&mut self, identifier: &String, size: i16) -> (r: Result<(), SemanticError>)
        requires
            old(self).wf(),
        ensures
            final(self).wf(),
            final(self).entries().len() == old(self).entries().len(),
            old(self).single_valued() ==> final(self).single_valued(),
            match r {
                Ok(()) => {
                    &&& old(self).get_spec(identifier@) is Some
                    &&& forall|k: Seq<char>| #[trigger] final(self).get_spec(k) == if k == identifier@ {
                        Some(Symbol { size: Some(size), ..old(self).get_spec(k).unwrap() })
                    } else {
                        old(self).get_spec(k)
                    }
                },
                Err(e) => {
                    &&& old(self).get_spec(identifier@) is None
                    &&& final(self).entries() == old(self).entries()
                    &&& e matches SemanticError::SymbolTableError(x)
                    &&& x@ == identifier@
                },
            },
    {
        match self.position_of(identifier) {
            None => Err(SemanticError::SymbolTableError(identifier.clone())),
            Some(i) => {
                let ghost old_s = self.symbols@;
                proof {
                    lemma_lookup_at(old_s, i as int);
                }
                self.symbols[i].size = Some(size);
                proof {
                    self.lemma_changed_at(old_s, i as int);
                }
                Ok(())
            },
        }
    }

    /// After entry `i` of `old_s` changed in anything but its identifier,
    /// every other identifier still finds what it found.
    proof fn lemma_changed_at(&self, old_s: Seq<Symbol>, i: int)
        requires
            distinct_keys(old_s),
            0 <= i < old_s.len(),
            self.symbols@.len() == old_s.len(),
            self.symbols@[i].Identifier@ == old_s[i].Identifier@,
            forall|j: int| 0 <= j < old_s.len() && j != i ==> #[trigger] self.symbols@[j] == old_s[j],
        ensures
            self.wf(),
            forall|k: Seq<char>|
                k != old_s[i].Identifier@ ==> #[trigger] lookup(self.symbols@, k) == lookup(old_s, k),
            lookup(self.symbols@, old_s[i].Identifier@) == Some(self.symbols@[i]),
    {
        let s = self.symbols@;
        assert forall|a: int, b: int|
            0 <= a < s.len() && 0 <= b < s.len() && a != b implies #[trigger] s[a].Identifier@
            != #[trigger] s[b].Identifier@ by {
            if a != i {
                assert(s[a] == old_s[a]);
            }
            if b != i {
                assert(s[b] == old_s[b]);
            }
            assert(old_s[a].Identifier@ != old_s[b].Identifier@);
        }
        lemma_lookup_at(s, i);
        assert forall|k: Seq<char>| k != old_s[i].Identifier@ implies #[trigger] lookup(s, k) == lookup(
            old_s,
            k,
        ) by {
            if has_key(old_s, k) {
                let j = choose|j: int| 0 <= j < old_s.len() && #[trigger] old_s[j].Identifier@ == k;
                assert(s[j] == old_s[j]);
                lemma_lookup_at(old_s, j);
                lemma_lookup_at(s, j);
            } else if has_key(s, k) {
                let j = choose|j: int| 0 <= j < s.len() && #[trigger] s[j].Identifier@ == k;
                assert(s[j] == old_s[j]);
            }
        }
    }

    /// Takes the entry for `identifier` out of the table, if there is one.
    pub fn remove(&mut self, identifier: &String) -> (r: Option<Symbol>)
        requires
            old(self).wf(),
        ensures
            final(self).wf(),
            old(self).single_valued() ==> final(self).single_valued(),
            r == old(self).get_spec(identifier@),
            forall|k: Seq<char>| #[trigger] final(self).get_spec(k) == if k == identifier@ {
                None
            } else {
                old(self).get_spec(k)
            },
    {
        match self.position_of(identifier) {
            None => {
                proof {
                    assert forall|k: Seq<char>| #[trigger] self.get_spec(k) == if k == identifier@ {
                        None
                    } else {
                        old(self).get_spec(k)
                    } by {}
                }
                None
            },
            Some(i) => {
                let ghost old_s = self.symbols@;
                proof {
                    lemma_lookup_at(old_s, i as int);
                }
                let sym = self.symbols.remove(i);
                proof {
                    let s = self.symbols@;
                    assert(s =~= old_s.remove(i as int));
                    assert forall|a: int, b: int|
                        0 <= a < s.len() && 0 <= b < s.len() && a != b implies #[trigger] s[a].Identifier@
                        != #[trigger] s[b].Identifier@ by {
                        let a2 = if a < i { a } else { a + 1 };
                        let b2 = if b < i { b } else { b + 1 };
                        assert(s[a] == old_s[a2]);
                        assert(s[b] == old_s[b2]);
                    }
                    assert forall|k: Seq<char>| #[trigger] lookup(s, k) == if k == identifier@ {
                        None
                    } else {
                        lookup(old_s, k)
                    } by {
                        if has_key(s, k) {
                            let j = choose|j: int| 0 <= j < s.len() && #[trigger] s[j].Identifier@ == k;
                            let j2 = if j < i { j } else { j + 1 };
                            assert(s[j] == old_s[j2]);
                            lemma_lookup_at(s, j);
                            lemma_lookup_at(old_s, j2);
                        } else if has_key(old_s, k) && k != identifier@ {
                            let j = choose|j: int| 0 <= j < old_s.len() && #[trigger] old_s[j].Identifier@ == k;
                            let j2 = if j < i { j } else { j - 1 };
                            assert(s[j2] == old_s[j]);
                        }
                    }
                }
                Some(sym)
            },
        }
    }

    /// Enters a new identifier with its type and constness, no value and no
    /// size; the error names the identifier when it already has an entry.
    pub fn declare(&mut self, name: String, ty: Types, is_constant: bool) -> (r: Result<(), SemanticError>)
        requires
            old(self).wf(),
        ensures
            final(self).wf(),
            old(self).single_valued() ==> final(self).single_valued(),
            match r {
                Ok(()) => {
                    &&& !old(self)@.contains_key(name@)
                    &&& final(self)@ == old(self)@.insert(
                        name@,
                        SymV { ty: Some(ty), is_const: Some(is_constant), address: None, value: None, size: None },
                    )
                },
                Err(e) => {
                    &&& old(self)@.contains_key(name@)
                    &&& final(self)@ == old(self)@
                    &&& e matches SemanticError::DuplicateVariableDeclaration(x)
                    &&& x@ == name@
                },
            },
    {
        let ghost old_s = self.entries();
        let sym = Symbol::new(name, Some(ty), Some(is_constant), None, Vec::new(), None);
        let ghost sym_g = sym;
        let r = self.insert(sym);
        proof {
            if r is Ok {
                assert forall|k: Seq<char>| #[trigger] lookup(old_s.push(sym_g), k) == if k == sym_g.Identifier@ {
                    Some(sym_g)
                } else {
                    lookup(old_s, k)
                } by {
                    lemma_lookup_push(old_s, sym_g, k);
                }
                assert(self@ =~= old(self)@.insert(
                    sym_g.Identifier@,
                    SymV { ty: Some(ty), is_const: Some(is_constant), address: None, value: None, size: None },
                ));
            } else {
                assert(self@ =~= old(self)@);
            }
        }
        r
    }

    /// Gives the entry for `name` the value `v`.
    pub fn set_value(&mut self, name: &String, v: TypeValue) -> (r: Result<(), SemanticError>)
        requires
            old(self).wf(),
        ensures
            final(self).wf(),
            old(self).single_valued() ==> final(self).single_valued(),
            match r {
                Ok(()) => {
                    &&& old(self)@.contains_key(name@)
                    &&& final(self)@ == old(self)@.insert(
                        name@,
                        SymV { value: Some(val_view(v)), ..old(self)@[name@] },
                    )
                },
                Err(e) => {
                    &&& !old(self)@.contains_key(name@)
                    &&& final(self)@ == old(self)@
                    &&& e matches SemanticError::SymbolTableError(x)
                    &&& x@ == name@
                },
            },
    {
        let ghost vv = val_view(v);
        let mut value: Vec<Option<TypeValue>> = Vec::new();
        value.push(Some(v));
        let r = self.update(name, value);
        proof {
            if r is Ok {
                assert(self@ =~= old(self)@.insert(name@, SymV { value: Some(vv), ..old(self)@[name@] }));
            } else {
                assert(self@ =~= old(self)@);
            }
        }
        r
    }

    /// Gives the entry for `name` the array size `size`.
    pub fn set_array_size(&mut self, name: &String, size: i16) -> (r: Result<(), SemanticError>)
        requires
            old(self).wf(),
        ensures
            final(self).wf(),
            old(self).single_valued() ==> final(self).single_valued(),
            match r {
                Ok(()) => {
                    &&& old(self)@.contains_key(name@)
                    &&& final(self)@ == old(self)@.insert(name@, SymV { size: Some(size), ..old(self)@[name@] })
                },
                Err(e) => {
                    &&& !old(self)@.contains_key(name@)
                    &&& final(self)@ == old(self)@
                    &&& e matches SemanticError::SymbolTableError(x)
                    &&& x@ == name@
                },
            },
    {
        let r = self.set_size(name, size);
        proof {
            if r is Ok {
                assert(self@ =~= old(self)@.insert(name@, SymV { size: Some(size), ..old(self)@[name@] }));
            } else {
                assert(self@ =~= old(self)@);
            }
        }
        r
    }
}

} // verus!

verus! {

/// After a symbol is entered under a new identifier, looking the identifier
/// up finds that symbol, and every other identifier finds what it found
/// before.
pub proof fn lemma_insert_then_get(t: SymbolTable, t2: SymbolTable, symbol: Symbol)
    requires
        t.wf(),
        t.get_spec(symbol.Identifier@) is None,
        t2.entries() == t.entries().push(symbol),
    ensures
        t2.wf(),
        t2.get_spec(symbol.Identifier@) == Some(symbol),
        forall|k: Seq<char>| k != symbol.Identifier@ ==> #[trigger] t2.get_spec(k) == t.get_spec(k),
{
    let s = t.entries();
    let s2 = t2.entries();
    let n = s.len() as int;
    assert forall|i: int, j: int|
        0 <= i < s2.len() && 0 <= j < s2.len() && i != j implies #[trigger] s2[i].Identifier@
        != #[trigger] s2[j].Identifier@ by {
        if i == n {
            assert(s[j] == s2[j]);
            assert(!has_key(s, symbol.Identifier@));
        } else if j == n {
            assert(s[i] == s2[i]);
            assert(!has_key(s, symbol.Identifier@));
        } else {
            assert(s[i] == s2[i]);
            assert(s[j] == s2[j]);
        }
    }
    lemma_lookup_at(s2, n);
    assert forall|k: Seq<char>| k != symbol.Identifier@ implies #[trigger] t2.get_spec(k) == t.get_spec(k) by {
        if has_key(s, k) {
            let j = choose|j: int| 0 <= j < s.len() && #[trigger] s[j].Identifier@ == k;
            assert(s2[j] == s[j]);
            lemma_lookup_at(s, j);
            lemma_lookup_at(s2, j);
        } else if has_key(s2, k) {
            let j = choose|j: int| 0 <= j < s2.len() && #[trigger] s2[j].Identifier@ == k;
            if j < n {
                assert(s2[j] == s[j]);
            }
        }
    }
}

} // verus!
