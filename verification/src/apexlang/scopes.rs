//! The variables of a running ApexLang program: a stack of frames, one per
//! call, each binding names to values that are mutable or not. A name is
//! looked up from the innermost frame outwards.

use vstd::prelude::*;

use crate::apexlang::error::ApexError;
use crate::text::{decimal, usize_to_string};

verus! {

/// A name bound in a frame.
pub struct Binding<V> {
    pub name: String,
    pub mutable: bool,
    pub value: V,
}

/// A binding as a name, whether it is mutable, and its value.
pub open spec fn binding_view<V>(b: Binding<V>) -> (Seq<char>, bool, V) {
    (b.name@, b.mutable, b.value)
}

/// The bindings of a frame, in the order they were made.
pub open spec fn frame_view<V>(f: Seq<Binding<V>>) -> Seq<(Seq<char>, bool, V)> {
    f.map_values(|b: Binding<V>| binding_view(b))
}

/// Where the callee of a call is found.
#[derive(Debug, PartialEq, Eq, Structural)]
pub enum CallTarget {
    /// The symbol imported under the called name.
    Symbol,
    /// The program's function of the called name.
    Function,
    /// The symbol of the module imported under the first of two names.
    ModuleSymbol,
}

/// Where a call of a path finds its callee, given what the names stand
/// for: for one name, whether it is an imported symbol and whether it is a
/// function of the program; for two, the module the first imports, if
/// any, and whether that module has the second as a symbol.
pub open spec fn call_target_of<V>(
    fs: Seq<Seq<(Seq<char>, bool, V)>>,
    segments: Seq<Seq<char>>,
    is_symbol: bool,
    is_function: bool,
    module: Option<Seq<char>>,
    symbol_known: bool,
) -> Result<CallTarget, Seq<char>> {
    if segments.len() == 0 {
        Err("Invalid callable path"@)
    } else if segments.len() == 1 {
        if find_binding(fs, segments[0]) is Some {
            Err("'"@ + segments[0] + "' is not callable"@)
        } else if is_symbol {
            Ok(CallTarget::Symbol)
        } else if is_function {
            Ok(CallTarget::Function)
        } else {
            Err("Unknown function '"@ + segments[0] + "'"@)
        }
    } else if segments.len() == 2 {
        match module {
            None => Err("Unknown module alias '"@ + segments[0] + "'"@),
            Some(m) => if symbol_known {
                Ok(CallTarget::ModuleSymbol)
            } else {
                Err("Unknown symbol '"@ + m + "::"@ + segments[1] + "'"@)
            },
        }
    } else {
        Err("Nested module paths are not supported"@)
    }
}

/// The frames of a call stack, the innermost last.
pub struct Scopes<V> {
    frames: Vec<Vec<Binding<V>>>,
}

/// The frames as sequences of bindings.
pub open spec fn frames_view<V>(fs: Seq<Vec<Binding<V>>>) -> Seq<Seq<(Seq<char>, bool, V)>> {
    fs.map_values(|f: Vec<Binding<V>>| frame_view(f@))
}

impl<V> View for Scopes<V> {
    type V = Seq<Seq<(Seq<char>, bool, V)>>;

    closed spec fn view(&self) -> Seq<Seq<(Seq<char>, bool, V)>> {
        frames_view(self.frames@)
    }
}

/// Where in a frame a name is bound: the latest binding of it.
pub open spec fn index_in<V>(f: Seq<(Seq<char>, bool, V)>, name: Seq<char>) -> Option<int>
    decreases f.len(),
{
    if f.len() == 0 {
        None
    } else if f.last().0 == name {
        Some(f.len() - 1)
    } else {
        index_in(f.drop_last(), name)
    }
}

/// The frame and the place in it of the binding a name refers to: in the
/// innermost frame that binds it.
pub open spec fn find_binding<V>(fs: Seq<Seq<(Seq<char>, bool, V)>>, name: Seq<char>) -> Option<(int, int)>
    decreases fs.len(),
{
    if fs.len() == 0 {
        None
    } else {
        match index_in(fs.last(), name) {
            Some(k) => Some((fs.len() - 1, k)),
            None => find_binding(fs.drop_last(), name),
        }
    }
}

/// A place that a name is found at is a binding of that name.
pub proof fn lemma_index_in_bound<V>(f: Seq<(Seq<char>, bool, V)>, name: Seq<char>)
    ensures
        index_in(f, name) matches Some(k) ==> 0 <= k < f.len() && f[k].0 == name,
    decreases f.len(),
{
    if f.len() > 0 && f.last().0 != name {
        lemma_index_in_bound(f.drop_last(), name);
    }
}

/// A binding that a name is found at is a binding of that name.
pub proof fn lemma_find_binding_bound<V>(fs: Seq<Seq<(Seq<char>, bool, V)>>, name: Seq<char>)
    ensures
        find_binding(fs, name) matches Some((i, k)) ==> 0 <= i < fs.len() && 0 <= k < fs[i].len()
            && fs[i][k].0 == name,
    decreases fs.len(),
{
    if fs.len() > 0 {
        lemma_index_in_bound(fs.last(), name);
        if index_in(fs.last(), name) is None {
            lemma_find_binding_bound(fs.drop_last(), name);
        }
    }
}

/// Where a name is bound in a frame.
fn position_in<V>(frame: &Vec<Binding<V>>, name: &str) -> (r: Option<usize>)
    ensures
        match r {
            Some(k) => index_in(frame_view(frame@), name@) == Some(k as int),
            None => index_in(frame_view(frame@), name@) is None,
        },
{
    let ghost fv = frame_view(frame@);
    let mut k: usize = frame.len();
    assert(fv.take(k as int) =~= fv);
    while k > 0
        invariant
            fv == frame_view(frame@),
            k <= frame@.len(),
            index_in(fv, name@) == index_in(fv.take(k as int), name@),
        decreases k,
    {
        let ghost t = fv.take(k as int);
        assert(t.last() == binding_view(frame@[k - 1]));
        if crate::text::str_equal(frame[k - 1].name.as_str(), name) {
            return Some(k - 1);
        }
        assert(t.drop_last() =~= fv.take(k - 1));
        k = k - 1;
    }
    assert(fv.take(0) =~= Seq::<(Seq<char>, bool, V)>::empty());
    None
}

/// A place no binding of a name is found at holds no binding of it.
pub proof fn lemma_index_in_none<V>(f: Seq<(Seq<char>, bool, V)>, name: Seq<char>)
    ensures
        index_in(f, name) is None ==> forall|i: int| 0 <= i < f.len() ==> #[trigger] f[i].0 != name,
    decreases f.len(),
{
    if f.len() > 0 && f.last().0 != name {
        lemma_index_in_none(f.drop_last(), name);
        assert forall|i: int| 0 <= i < f.len() && index_in(f, name) is None implies #[trigger] f[i].0 != name by {
            if i < f.len() - 1 {
                assert(f.drop_last()[i] == f[i]);
            }
        }
    }
}

/// The names of parameters.
pub open spec fn param_names(ps: Seq<String>) -> Seq<Seq<char>> {
    ps.map_values(|p: String| p@)
}

/// The first parameter, from position `j` on, that repeats an earlier one.
pub open spec fn repeat_from(ps: Seq<Seq<char>>, j: int) -> Option<int>
    decreases ps.len() - j,
{
    if j < 0 || j >= ps.len() {
        None
    } else if ps.take(j).contains(ps[j]) {
        Some(j)
    } else {
        repeat_from(ps, j + 1)
    }
}

/// The frame of a call: each parameter bound, immutably, to its argument.
pub open spec fn call_frame<V>(ps: Seq<Seq<char>>, args: Seq<V>) -> Seq<(Seq<char>, bool, V)> {
    Seq::new(ps.len(), |i: int| (ps[i], false, args[i]))
}

/// The message of a call with the wrong number of arguments.
pub open spec fn arity_message(function: Seq<char>, expected: nat, received: nat) -> Seq<char> {
    "Function '"@ + function + "' expected "@ + decimal(expected) + " argument(s) but received "@
        + decimal(received)
}

/// A binding replaced by one of the same name is where the name is found.
proof fn lemma_index_in_update<V>(f: Seq<(Seq<char>, bool, V)>, name: Seq<char>, k: int, b: (Seq<char>, bool, V))
    requires
        index_in(f, name) == Some(k),
        b.0 == name,
    ensures
        index_in(f.update(k, b), name) == Some(k),
    decreases f.len(),
{
    lemma_index_in_bound(f, name);
    if k < f.len() - 1 {
        assert(f.update(k, b).drop_last() =~= f.drop_last().update(k, b));
        lemma_index_in_update(f.drop_last(), name, k, b);
    }
}

/// A frame replaced by one where the name is found at the same place.
proof fn lemma_find_binding_update<V>(
    fs: Seq<Seq<(Seq<char>, bool, V)>>,
    name: Seq<char>,
    i: int,
    g: Seq<(Seq<char>, bool, V)>,
)
    requires
        find_binding(fs, name) matches Some((fi, fk)) && fi == i && index_in(g, name) == Some(fk),
    ensures
        find_binding(fs.update(i, g), name) == find_binding(fs, name),
    decreases fs.len(),
{
    lemma_find_binding_bound(fs, name);
    if i < fs.len() - 1 {
        assert(fs.update(i, g).drop_last() =~= fs.drop_last().update(i, g));
        lemma_find_binding_update(fs.drop_last(), name, i, g);
    }
}

/// Looking up a name just declared gives what it was declared with.
pub proof fn lemma_declared_then_found<V>(fs: Seq<Seq<(Seq<char>, bool, V)>>, name: Seq<char>, mutable: bool, value: V)
    requires
        fs.len() > 0,
        index_in(fs.last(), name) is None,
    ensures
        ({
            let after = fs.drop_last().push(fs.last().push((name, mutable, value)));
            &&& find_binding(after, name) == Some((fs.len() - 1, fs.last().len() as int))
            &&& after[fs.len() - 1][fs.last().len() as int] == (name, mutable, value)
        }),
{
    let after = fs.drop_last().push(fs.last().push((name, mutable, value)));
    assert(after.last() == fs.last().push((name, mutable, value)));
}

/// Looking up a name just assigned gives the value assigned, at the same
/// binding.
pub proof fn lemma_assigned_then_found<V>(fs: Seq<Seq<(Seq<char>, bool, V)>>, name: Seq<char>, value: V)
    requires
        find_binding(fs, name) is Some,
    ensures
        ({
            let (i, k) = find_binding(fs, name)->0;
            let after = fs.update(i, fs[i].update(k, (name, true, value)));
            &&& find_binding(after, name) == Some((i, k))
            &&& after[i][k] == (name, true, value)
        }),
{
    lemma_find_binding_bound(fs, name);
    let (i, k) = find_binding(fs, name)->0;
    lemma_frame_found(fs, name);
    lemma_index_in_update(fs[i], name, k, (name, true, value));
    lemma_find_binding_update(fs, name, i, fs[i].update(k, (name, true, value)));
}

/// The frame a name is found in finds it at the same place.
proof fn lemma_frame_found<V>(fs: Seq<Seq<(Seq<char>, bool, V)>>, name: Seq<char>)
    ensures
        find_binding(fs, name) matches Some((i, k)) ==> index_in(fs[i], name) == Some(k),
    decreases fs.len(),
{
    if fs.len() > 0 && index_in(fs.last(), name) is None {
        lemma_frame_found(fs.drop_last(), name);
        lemma_find_binding_bound(fs.drop_last(), name);
        if let Some((i, k)) = find_binding(fs.drop_last(), name) {
            assert(fs.drop_last()[i] == fs[i]);
        }
    }
}

/// Closing the frame a call opened leaves the frames as they were before.
pub proof fn lemma_call_frame_closed<V>(fs: Seq<Seq<(Seq<char>, bool, V)>>, ps: Seq<Seq<char>>, args: Seq<V>)
    ensures
        fs.push(call_frame(ps, args)).drop_last() == fs,
{
    assert(fs.push(call_frame(ps, args)).drop_last() =~= fs);
}

impl<V> Scopes<V> {
    /// No frames.
    pub fn new() -> (s: Self)
        ensures
            s@ == Seq::<Seq<(Seq<char>, bool, V)>>::empty(),
    {
        let s = Scopes { frames: Vec::new() };
        assert(s@ =~= Seq::<Seq<(Seq<char>, bool, V)>>::empty());
        s
    }

    /// How many frames there are.
    pub fn depth(&self) -> (n: usize)
        ensures
            n == self@.len(),
    {
        self.frames.len()
    }

    /// Opens an empty innermost frame.
    pub fn push_frame(&mut self)
        ensures
            final(self)@ == old(self)@.push(Seq::empty()),
    {
        self.frames.push(Vec::new());
        assert(frame_view(Seq::<Binding<V>>::empty()) =~= Seq::empty());
        assert(final(self)@ =~= old(self)@.push(Seq::empty()));
    }

    /// Closes the innermost frame, if there is one.
    pub fn pop_frame(&mut self)
        ensures
            old(self)@.len() > 0 ==> final(self)@ == old(self)@.drop_last(),
            old(self)@.len() == 0 ==> final(self)@ == old(self)@,
    {
        if self.frames.len() > 0 {
            let _ = self.frames.pop();
            assert(final(self)@ =~= old(self)@.drop_last());
        }
    }

    /// The frame and place of the binding a name refers to.
    pub fn position(&self, name: &str) -> (r: Option<(usize, usize)>)
        ensures
            match r {
                Some((i, k)) => find_binding(self@, name@) == Some((i as int, k as int)),
                None => find_binding(self@, name@) is None,
            },
    {
        let ghost fs = self@;
        let mut i: usize = self.frames.len();
        assert(fs.take(i as int) =~= fs);
        while i > 0
            invariant
                fs == self@,
                fs == frames_view(self.frames@),
                i <= self.frames@.len(),
                find_binding(fs, name@) == find_binding(fs.take(i as int), name@),
            decreases i,
        {
            let ghost t = fs.take(i as int);
            assert(t.last() == frame_view(self.frames@[i - 1]@));
            match position_in(&self.frames[i - 1], name) {
                Some(k) => {
                    return Some((i - 1, k));
                },
                None => {},
            }
            assert(t.drop_last() =~= fs.take(i - 1));
            i = i - 1;
        }
        assert(fs.take(0) =~= Seq::<Seq<(Seq<char>, bool, V)>>::empty());
        None
    }

    /// The value a name refers to, from the innermost frame that binds it.
    pub fn lookup(&self, name: &str) -> (r: Option<&V>)
        ensures
            match find_binding(self@, name@) {
                Some((i, k)) => r matches Some(v) && *v == self@[i][k].2,
                None => r is None,
            },
    {
        proof {
            lemma_find_binding_bound(self@, name@);
        }
        match self.position(name) {
            Some((i, k)) => {
                assert(self@[i as int] == frame_view(self.frames@[i as int]@));
                assert(self.frames@[i as int]@.len() == self@[i as int].len());
                assert(self@[i as int][k as int] == binding_view(self.frames@[i as int]@[k as int]));
                Some(&self.frames[i][k].value)
            },
            None => None,
        }
    }

    /// The value a path names as an expression: a single name bound in
    /// some frame. A path of more names, a name that is not bound but names
    /// a function (`callable`), or a name that is neither is an error.
    pub fn path_value(&self, segments: &Vec<String>, callable: bool) -> (r: Result<&V, ApexError>)
        ensures
            segments@.len() != 1 ==> (r matches Err(e) && e@
                == "Module-qualified identifiers must be called as functions"@),
            segments@.len() == 1 ==> match find_binding(self@, segments@[0]@) {
                Some((i, k)) => r matches Ok(v) && *v == self@[i][k].2,
                None => r matches Err(e) && e@ == (if callable {
                    "'"@ + segments@[0]@ + "' is a function and must be called with parentheses"@
                } else {
                    "Unknown identifier '"@ + segments@[0]@ + "'"@
                }),
            },
    {
        if segments.len() != 1 {
            return Err(ApexError::new(String::from_str("Module-qualified identifiers must be called as functions")));
        }
        let name = segments[0].as_str();
        match self.lookup(name) {
            Some(v) => Ok(v),
            None => {
                if callable {
                    let mut m = String::from_str("'");
                    m.append(name);
                    m.append("' is a function and must be called with parentheses");
                    Err(ApexError::new(m))
                } else {
                    let mut m = String::from_str("Unknown identifier '");
                    m.append(name);
                    m.append("'");
                    Err(ApexError::new(m))
                }
            },
        }
    }

    /// Where a call of the path finds its callee (see `call_target_of`);
    /// a variable's name is not callable.
    pub fn call_target(
        &self,
        segments: &Vec<String>,
        is_symbol: bool,
        is_function: bool,
        module: Option<&str>,
        symbol_known: bool,
    ) -> (r: Result<CallTarget, ApexError>)
        ensures
            match call_target_of(
                self@,
                segments@.map_values(|t: String| t@),
                is_symbol,
                is_function,
                match module {
                    Some(m) => Some(m@),
                    None => None,
                },
                symbol_known,
            ) {
                Ok(t) => r == Ok::<CallTarget, ApexError>(t),
                Err(m) => r matches Err(e) && e@ == m,
            },
    {
        let ghost names = segments@.map_values(|t: String| t@);
        if segments.len() == 0 {
            return Err(ApexError::new(String::from_str("Invalid callable path")));
        }
        if segments.len() == 1 {
            let name = segments[0].as_str();
            assert(name@ == names[0]);
            if self.lookup(name).is_some() {
                let mut m = String::from_str("'");
                m.append(name);
                m.append("' is not callable");
                return Err(ApexError::new(m));
            }
            if is_symbol {
                return Ok(CallTarget::Symbol);
            }
            if is_function {
                return Ok(CallTarget::Function);
            }
            let mut m = String::from_str("Unknown function '");
            m.append(name);
            m.append("'");
            return Err(ApexError::new(m));
        }
        if segments.len() == 2 {
            let alias = segments[0].as_str();
            let symbol = segments[1].as_str();
            assert(alias@ == names[0] && symbol@ == names[1]);
            return match module {
                None => {
                    let mut m = String::from_str("Unknown module alias '");
                    m.append(alias);
                    m.append("'");
                    Err(ApexError::new(m))
                },
                Some(name) => if symbol_known {
                    Ok(CallTarget::ModuleSymbol)
                } else {
                    let mut m = String::from_str("Unknown symbol '");
                    m.append(name);
                    m.append("::");
                    m.append(symbol);
                    m.append("'");
                    Err(ApexError::new(m))
                },
            };
        }
        Err(ApexError::new(String::from_str("Nested module paths are not supported")))
    }

    /// Binds a name in the innermost frame. With no frame, or with the name
    /// bound there already, nothing changes and the error says why.
    pub fn declare(&mut self, name: &str, mutable: bool, value: V) -> (r: Result<(), ApexError>)
        ensures
            old(self)@.len() == 0 ==> (r matches Err(e) && e@ == "Internal error: missing execution frame"@)
                && final(self)@ == old(self)@,
            old(self)@.len() > 0 && index_in(old(self)@.last(), name@) is Some ==> (r matches Err(e) && e@
                == "Variable '"@ + name@ + "' is already defined in this scope"@) && final(self)@ == old(self)@,
            old(self)@.len() > 0 && index_in(old(self)@.last(), name@) is None ==> r is Ok && final(self)@
                == old(self)@.drop_last().push(old(self)@.last().push((name@, mutable, value))),
    {
        let n = self.frames.len();
        if n == 0 {
            return Err(ApexError::new(String::from_str("Internal error: missing execution frame")));
        }
        proof {
            assert(old(self)@.last() == frame_view(self.frames@[n - 1]@));
        }
        if position_in(&self.frames[n - 1], name).is_some() {
            let mut m = String::from_str("Variable '");
            m.append(name);
            m.append("' is already defined in this scope");
            return Err(ApexError::new(m));
        }
        let mut frame = match self.frames.pop() {
            Some(f) => f,
            None => Vec::new(),
        };
        frame.push(Binding { name: String::from_str(name), mutable, value });
        self.frames.push(frame);
        proof {
            assert(frame_view(frame@) =~= old(self)@.last().push((name@, mutable, value)));
            assert(final(self)@ =~= old(self)@.drop_last().push(old(self)@.last().push((name@, mutable, value))));
        }
        Ok(())
    }

    /// Opens the frame of a call of `function`, its parameters bound
    /// immutably to the arguments. A count of arguments other than that of
    /// the parameters, or a parameter named twice, changes nothing and the
    /// error says why.
    pub fn enter_call(&mut self, function: &str, params: &Vec<String>, args: Vec<V>) -> (r: Result<(), ApexError>)
        ensures
            params@.len() != args@.len() ==> (r matches Err(e) && e@ == arity_message(
                function@,
                params@.len(),
                args@.len(),
            )) && final(self)@ == old(self)@,
            params@.len() == args@.len() && repeat_from(param_names(params@), 0) is Some ==> (r matches Err(e)
                && e@ == "Duplicate parameter '"@ + param_names(params@)[repeat_from(param_names(params@), 0)->0]
                + "' in function '"@ + function@ + "'"@) && final(self)@ == old(self)@,
            params@.len() == args@.len() && repeat_from(param_names(params@), 0) is None ==> r is Ok
                && final(self)@ == old(self)@.push(call_frame(param_names(params@), args@)),
    {
        let ghost ns = param_names(params@);
        if params.len() != args.len() {
            let mut m = String::from_str("Function '");
            m.append(function);
            m.append("' expected ");
            let a = usize_to_string(params.len());
            m.append(a.as_str());
            m.append(" argument(s) but received ");
            let b = usize_to_string(args.len());
            m.append(b.as_str());
            return Err(ApexError::new(m));
        }
        let ghost all = args@;
        let mut frame: Vec<Binding<V>> = Vec::new();
        let mut rest = args;
        let mut j: usize = 0;
        assert(frame_view(frame@) =~= call_frame(ns.take(0), all.take(0)));
        while j < params.len()
            invariant
                ns == param_names(params@),
                all.len() == params@.len(),
                all == args@,
                j <= params@.len(),
                rest@ == all.skip(j as int),
                frame_view(frame@) == call_frame(ns.take(j as int), all.take(j as int)),
                repeat_from(ns, 0) == repeat_from(ns, j as int),
            decreases params@.len() - j,
        {
            let name = params[j].as_str();
            proof {
                assert(name@ == ns[j as int]);
                lemma_index_in_bound(frame_view(frame@), name@);
                lemma_index_in_none(frame_view(frame@), name@);
            }
            if position_in(&frame, name).is_some() {
                proof {
                    let k = index_in(frame_view(frame@), name@)->0;
                    assert(frame_view(frame@)[k].0 == ns.take(j as int)[k]);
                    assert(ns.take(j as int).contains(ns[j as int]));
                    assert(repeat_from(ns, j as int) == Some(j as int));
                }
                let mut m = String::from_str("Duplicate parameter '");
                m.append(name);
                m.append("' in function '");
                m.append(function);
                m.append("'");
                return Err(ApexError::new(m));
            }
            proof {
                assert forall|i: int| 0 <= i < j implies ns.take(j as int)[i] != ns[j as int] by {
                    assert(frame_view(frame@)[i].0 == ns.take(j as int)[i]);
                }
                assert(!ns.take(j as int).contains(ns[j as int]));
            }
            let v = rest.remove(0);
            let ghost before = frame_view(frame@);
            frame.push(Binding { name: String::from_str(name), mutable: false, value: v });
            proof {
                assert(v == all[j as int]);
                assert(frame_view(frame@) =~= before.push((ns[j as int], false, v)));
                assert(rest@ =~= all.skip(j + 1));
                assert(frame_view(frame@) =~= call_frame(ns.take(j + 1), all.take(j + 1)));
            }
            j = j + 1;
        }
        self.frames.push(frame);
        proof {
            assert(ns.take(j as int) =~= ns);
            assert(all.take(j as int) =~= all);
            assert(repeat_from(ns, j as int) is None);
            assert(final(self)@ =~= old(self)@.push(call_frame(ns, all)));
        }
        Ok(())
    }

    /// Gives a new value to the binding a name refers to, which must be
    /// mutable. An unknown name, or an immutable binding, changes nothing
    /// and the error says why.
    pub fn assign(&mut self, name: &str, value: V) -> (r: Result<(), ApexError>)
        ensures
            match find_binding(old(self)@, name@) {
                None => (r matches Err(e) && e@ == "Unknown variable '"@ + name@ + "'"@) && final(self)@
                    == old(self)@,
                Some((i, k)) => if old(self)@[i][k].1 {
                    r is Ok && final(self)@ == old(self)@.update(i, old(self)@[i].update(k, (name@, true, value)))
                } else {
                    (r matches Err(e) && e@ == "Cannot assign to immutable binding '"@ + name@ + "'"@)
                        && final(self)@ == old(self)@
                },
            },
    {
        proof {
            lemma_find_binding_bound(self@, name@);
        }
        match self.position(name) {
            None => {
                let mut m = String::from_str("Unknown variable '");
                m.append(name);
                m.append("'");
                Err(ApexError::new(m))
            },
            Some((i, k)) => {
                proof {
                    assert(old(self)@[i as int] == frame_view(self.frames@[i as int]@));
                    assert(self.frames@[i as int]@.len() == old(self)@[i as int].len());
                    assert(old(self)@[i as int][k as int] == binding_view(self.frames@[i as int]@[k as int]));
                }
                if !self.frames[i][k].mutable {
                    let mut m = String::from_str("Cannot assign to immutable binding '");
                    m.append(name);
                    m.append("'");
                    return Err(ApexError::new(m));
                }
                let mut frame = self.frames.remove(i);
                let _ = frame.remove(k);
                frame.insert(k, Binding { name: String::from_str(name), mutable: true, value });
                self.frames.insert(i, frame);
                proof {
                    let old_frame = old(self)@[i as int];
                    assert(frame_view(frame@) =~= old_frame.update(k as int, (name@, true, value)));
                    assert(final(self)@ =~= old(self)@.update(
                        i as int,
                        old_frame.update(k as int, (name@, true, value)),
                    ));
                }
                Ok(())
            },
        }
    }
}

} // verus!
