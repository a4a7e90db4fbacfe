//! Lookups over a loaded registry: by address, and by exact or demangled name.
use crate::functions::{Info, FunctionView};
use crate::text::{chars_of, contains_chars, is_substring};
use rayon::iter::{IntoParallelRefIterator, ParallelIterator};
use rustc_hash::{FxBuildHasher, FxHashMap};
use vstd::prelude::*;

verus! {

/// The hasher builder of rustc-hash's `FxHashMap`.
#[verifier::external_type_specification]
#[verifier::external_body]
pub struct ExFxBuildHasher(FxBuildHasher);

/// The named functions by address; where two share an address, the later one.
pub open spec fn known_functions(fs: Seq<Info>) -> Map<u64, Info>
    decreases fs.len(),
{
    if fs.len() == 0 {
        Map::empty()
    } else {
        let prev = known_functions(fs.drop_last());
        if fs.last().name@.len() == 0 {
            prev
        } else {
            prev.insert(fs.last().addr, fs.last())
        }
    }
}

/// Relies on `HashMap::with_capacity_and_hasher` with rustc-hash's
/// `FxBuildHasher`: the new map is empty.
#[verifier::external_body]
fn new_known_map<'a>(capacity: usize) -> (r: FxHashMap<u64, &'a Info>)
    ensures
        r@.dom() == Set::<u64>::empty(),
{
    FxHashMap::with_capacity_and_hasher(capacity, FxBuildHasher::default())
}

/// Relies on `HashMap::insert` with rustc-hash's `FxBuildHasher`, whose hashes
/// depend on the key alone: the key maps to the value afterwards, and the
/// other keys keep theirs.
#[verifier::external_body]
fn insert_known<'a>(map: &mut FxHashMap<u64, &'a Info>, addr: u64, function: &'a Info)
    ensures
        final(map)@ == old(map)@.insert(addr, function),
{
    map.insert(addr, function);
}

/// The named functions by their relative address.
pub fn make_known_function_map<'a>(functions: &'a [Info]) -> (r: FxHashMap<u64, &'a Info>)
    ensures
        r@.dom() == known_functions(functions@).dom(),
        forall|a: u64| #[trigger] r@.contains_key(a) ==> *r@[a] == known_functions(functions@)[a],
{
    let mut known = new_known_map(functions.len());
    let mut i: usize = 0;
    assert(functions@.take(0) =~= Seq::<Info>::empty());
    assert(known@.dom() =~= known_functions(functions@.take(0)).dom());
    while i < functions.len()
        invariant
            i <= functions.len(),
            known@.dom() == known_functions(functions@.take(i as int)).dom(),
            forall|a: u64| #[trigger]
                known@.contains_key(a) ==> *known@[a] == known_functions(functions@.take(i as int))[a],
        decreases functions.len() - i,
    {
        let function = &functions[i];
        let ghost next = functions@.take(i + 1);
        assert(next.drop_last() == functions@.take(i as int));
        assert(next.last() == *function);
        if !function.name.as_str().is_empty() {
            insert_known(&mut known, function.addr, function);
            assert(known@.dom() =~= known_functions(next).dom());
        } else {
            assert(known@.dom() =~= known_functions(next).dom());
        }
        i = i + 1;
    }
    assert(functions@.take(functions.len() as int) == functions@);
    known
}

/// Whether a name follows the mangling scheme, which starts with `_Z`.
pub open spec fn is_mangled(name: Seq<char>) -> bool {
    name.len() >= 2 && name[0] == '_' && name[1] == 'Z'
}

/// Names what cpp_demangle makes of a symbol: its demangled text, or nothing
/// where it cannot parse or print it.
pub uninterp spec fn cpp_demangled(name: Seq<char>) -> Option<Seq<char>>;

/// Relies on cpp_demangle's `Symbol::new` and `Symbol::demangle`: the text of
/// the symbol, or nothing where either reports an error.
#[verifier::external_body]
fn demangle_symbol(name: &str) -> (r: Option<String>)
    ensures
        match r {
            Some(s) => cpp_demangled(name@) == Some(s@),
            None => cpp_demangled(name@) is None,
        },
{
    match cpp_demangle::Symbol::new(name) {
        Ok(symbol) => symbol.demangle().ok(),
        Err(_) => None,
    }
}

/// Why a name could not be demangled.
#[derive(Clone, Copy, Debug, PartialEq, Eq, Structural)]
pub enum DemangleError {
    /// The name does not start with `_Z`.
    NotMangled,
    /// The demangler refused the name.
    Invalid,
}

/// The demangled form of a name, where it has one.
pub open spec fn demangled(name: Seq<char>) -> Option<Seq<char>> {
    if is_mangled(name) {
        cpp_demangled(name)
    } else {
        None
    }
}

/// Demangles a C++ symbol.
pub fn demangle_str(name: &str) -> (r: Result<String, DemangleError>)
    ensures
        match r {
            Ok(s) => demangled(name@) == Some(s@),
            Err(DemangleError::NotMangled) => !is_mangled(name@),
            Err(DemangleError::Invalid) => is_mangled(name@) && cpp_demangled(name@) is None,
        },
{
    let cs = chars_of(name);
    if !(cs.len() >= 2 && cs[0] == '_' && cs[1] == 'Z') {
        return Err(DemangleError::NotMangled);
    }
    match demangle_symbol(name) {
        Some(s) => Ok(s),
        None => Err(DemangleError::Invalid),
    }
}

/// Whether an entry answers a query: by its exact name, or, when `fuzzy`, by
/// a demangled name that holds the query. A name that does not demangle
/// never answers in the fuzzy case.
pub open spec fn answers(f: FunctionView, query: Seq<char>, fuzzy: bool) -> bool {
    if fuzzy {
        demangled(f.name) matches Some(d) && is_substring(query, d)
    } else {
        f.name == query
    }
}

/// Whether the demangled text `demangled` holds the query; a failed
/// demangling holds nothing.
pub fn demangled_contains(demangled: &Result<String, DemangleError>, query: &str) -> (r: bool)
    ensures
        r == (demangled matches Ok(s) && is_substring(query@, s@)),
{
    match demangled {
        Ok(s) => {
            let text = chars_of(s.as_str());
            let q = chars_of(query);
            contains_chars(&text, &q)
        },
        Err(_) => false,
    }
}

/// Whether `function` answers `query`, exactly or through its demangled name.
pub fn function_answers(function: &Info, query: &str, fuzzy: bool) -> (r: bool)
    ensures
        r == answers(function@, query@, fuzzy),
{
    if fuzzy {
        let d = demangle_str(function.name.as_str());
        demangled_contains(&d, query)
    } else {
        let q = chars_of(query);
        let n = chars_of(function.name.as_str());
        crate::text::chars_equal(&n, &q)
    }
}

/// Relies on rayon's `find_first` over `par_iter` of a slice: it yields an
/// element for which the predicate holds, or nothing when none does.
#[verifier::external_body]
fn par_find<'a>(functions: &'a [Info], query: &str, fuzzy: bool) -> (r: Option<&'a Info>)
    ensures
        match r {
            Some(f) => exists|i: int|
                0 <= i < functions@.len() && functions@[i] == *f && answers(
                    #[trigger] functions@[i]@,
                    query@,
                    fuzzy,
                ),
            None => forall|i: int|
                0 <= i < functions@.len() ==> !answers(#[trigger] functions@[i]@, query@, fuzzy),
        },
{
    functions.par_iter().find_first(|f| function_answers(f, query, fuzzy))
}

pub open spec fn some_answers(fs: Seq<Info>, query: Seq<char>, fuzzy: bool) -> bool {
    exists|i: int| 0 <= i < fs.len() && answers(#[trigger] fs[i]@, query, fuzzy)
}

pub open spec fn is_element(fs: Seq<Info>, f: Info) -> bool {
    exists|i: int| 0 <= i < fs.len() && #[trigger] fs[i] == f
}

/// Finds a function by name: one whose name is the query if there is any,
/// else one whose demangled name contains the query. Where several qualify,
/// any of them may come back.
pub fn find_function_fuzzy<'a>(functions: &'a [Info], name: &str) -> (r: Option<&'a Info>)
    ensures
        r matches Some(f) ==> is_element(functions@, *f),
        some_answers(functions@, name@, false) ==> (r matches Some(f) && answers(
            f@,
            name@,
            false,
        )),
        !some_answers(functions@, name@, false) ==> match r {
            Some(f) => answers(f@, name@, true),
            None => !some_answers(functions@, name@, true),
        },
{
    match par_find(functions, name, false) {
        Some(f) => Some(f),
        None => par_find(functions, name, true),
    }
}

} // verus!
