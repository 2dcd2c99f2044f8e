//! The tool registry: the fixed set of capabilities the model may invoke,
//! declared by name, description and parameter schema, and resolved by
//! case-sensitive exact name match. The last registration for a name wins.
//!
//! Executors live outside the crate: resolving an invocation here tells the
//! caller which declared tool to run.

use vstd::prelude::*;
use crate::errors::AgentError;
use crate::strutil::str_eq;

verus! {

/// Name, human-readable description, and parameter schema (a JSON schema,
/// kept as its JSON text) of one tool.
#[derive(Debug)]
pub struct FunctionDefinition {
    pub name: String,
    pub description: String,
    pub parameters: String,
}

/// Mathematical model of a `FunctionDefinition`.
#[verifier::ext_equal]
pub ghost struct FunctionDefView {
    pub name: Seq<char>,
    pub description: Seq<char>,
    pub parameters: Seq<char>,
}

impl View for FunctionDefinition {
    type V = FunctionDefView;

    open spec fn view(&self) -> FunctionDefView {
        FunctionDefView {
            name: self.name@,
            description: self.description@,
            parameters: self.parameters@,
        }
    }
}

impl Clone for FunctionDefinition {
    fn clone(&self) -> (r: Self)
        ensures
            r@ == self@,
    {
        FunctionDefinition {
            name: self.name.clone(),
            description: self.description.clone(),
            parameters: self.parameters.clone(),
        }
    }
}

/// A tool as exposed to the model's function-calling interface.
#[derive(Debug)]
pub struct ToolDefinition {
    pub function: FunctionDefinition,
}

/// Mathematical model of a `ToolDefinition`.
#[verifier::ext_equal]
pub ghost struct ToolDefView {
    pub function: FunctionDefView,
}

impl View for ToolDefinition {
    type V = ToolDefView;

    open spec fn view(&self) -> ToolDefView {
        ToolDefView { function: self.function@ }
    }
}

impl Clone for ToolDefinition {
    fn clone(&self) -> (r: Self)
        ensures
            r@ == self@,
    {
        ToolDefinition { function: self.function.clone() }
    }
}

/// The tool registered under name `n`, searching the most recent
/// registration first.
pub open spec fn lookup(s: Seq<ToolDefView>, n: Seq<char>) -> Option<ToolDefView>
    decreases s.len(),
{
    if s.len() == 0 {
        None
    } else if s.last().function.name == n {
        Some(s.last())
    } else {
        lookup(s.drop_last(), n)
    }
}

proof fn lemma_lookup_present(s: Seq<ToolDefView>, n: Seq<char>, i: int)
    requires
        0 <= i < s.len(),
        s[i].function.name == n,
        forall|p: int, q: int|
            0 <= p < q < s.len() ==> s[p].function.name != s[q].function.name,
    ensures
        lookup(s, n) == Some(s[i]),
    decreases s.len(),
{
    if i == s.len() - 1 {
    } else {
        assert(s.last().function.name != n);
        assert(s.drop_last()[i] == s[i]);
        lemma_lookup_present(s.drop_last(), n, i);
    }
}

proof fn lemma_lookup_absent(s: Seq<ToolDefView>, n: Seq<char>)
    requires
        forall|i: int| 0 <= i < s.len() ==> s[i].function.name != n,
    ensures
        lookup(s, n) is None,
    decreases s.len(),
{
    if s.len() > 0 {
        lemma_lookup_absent(s.drop_last(), n);
    }
}

proof fn lemma_lookup_update(s: Seq<ToolDefView>, i: int, d: ToolDefView, n: Seq<char>)
    requires
        0 <= i < s.len(),
        s[i].function.name == d.function.name,
        forall|p: int, q: int|
            0 <= p < q < s.len() ==> s[p].function.name != s[q].function.name,
    ensures
        lookup(s.update(i, d), n) == (if n == d.function.name {
            Some(d)
        } else {
            lookup(s, n)
        }),
    decreases s.len(),
{
    let t = s.update(i, d);
    if i == s.len() - 1 {
        assert(t.last() == d);
        if n != d.function.name {
            assert(t.drop_last() =~= s.drop_last());
        }
    } else {
        assert(t.last() == s.last());
        assert(s[i].function.name != s.last().function.name);
        if s.last().function.name == n {
        } else {
            assert(t.drop_last() =~= s.drop_last().update(i, d));
            assert(s.drop_last()[i] == s[i]);
            lemma_lookup_update(s.drop_last(), i, d, n);
        }
    }
}

/// Maps tool names to declared tools; names are unique and matched exactly.
#[derive(Debug)]
pub struct ToolRegistry {
    tools: Vec<ToolDefinition>,
}

impl View for ToolRegistry {
    type V = Seq<ToolDefView>;

    closed spec fn view(&self) -> Seq<ToolDefView> {
        self.tools@.map_values(|d: ToolDefinition| d@)
    }
}

impl ToolRegistry {
    /// No two registered tools share a name.
    pub open spec fn wf(self) -> bool {
        forall|p: int, q: int|
            0 <= p < q < self@.len() ==> self@[p].function.name != self@[q].function.name
    }

    pub fn new() -> (r: ToolRegistry)
        ensures
            r@ =~= Seq::<ToolDefView>::empty(),
            r.wf(),
    {
        ToolRegistry { tools: Vec::new() }
    }

    /// How many tools are registered.
    pub fn len(&self) -> (n: usize)
        ensures
            n == self@.len(),
    {
        self.tools.len()
    }

    /// Registers a tool. A second registration under the same name replaces
    /// the first: an overwrite, not an error.
    pub fn register(&mut self, tool: ToolDefinition)
        requires
            old(self).wf(),
        ensures
            final(self).wf(),
            forall|n: Seq<char>|
                #[trigger] lookup(final(self)@, n) == (if n == tool@.function.name {
                    Some(tool@)
                } else {
                    lookup(old(self)@, n)
                }),
            old(self)@.len() <= final(self)@.len() <= old(self)@.len() + 1,
    {
        let ghost pre = self@;
        let mut i: usize = 0;
        while i < self.tools.len()
            invariant
                i <= self.tools.len(),
                forall|j: int| 0 <= j < i ==> self@[j].function.name != tool@.function.name,
                self@ == pre,
                pre == old(self)@,
                self.wf(),
            decreases self.tools.len() - i,
        {
            if str_eq(self.tools[i].function.name.as_str(), tool.function.name.as_str()) {
                proof {
                    assert(pre[i as int] == self.tools@[i as int]@);
                }
                let ghost ii = i as int;
                self.tools.set(i, tool);
                proof {
                    assert(self@ =~= pre.update(ii, self@[ii]));
                    let d = self@[ii];
                    assert(d == self.tools@[ii]@);
                    assert forall|n: Seq<char>|
                        #[trigger] lookup(self@, n) == (if n == d.function.name {
                            Some(d)
                        } else {
                            lookup(pre, n)
                        }) by {
                        lemma_lookup_update(pre, ii, d, n);
                    }
                    assert forall|p: int, q: int|
                        0 <= p < q < self@.len() implies self@[p].function.name
                        != self@[q].function.name by {
                        assert(pre[p].function.name == self@[p].function.name || p == ii);
                        assert(pre[q].function.name == self@[q].function.name || q == ii);
                    }
                }
                return ;
            }
            i = i + 1;
        }
        self.tools.push(tool);
        proof {
            assert(self@ =~= pre.push(self@[pre.len() as int]));
            let d = self@[pre.len() as int];
            assert(self@.drop_last() =~= pre);
            assert forall|n: Seq<char>|
                #[trigger] lookup(self@, n) == (if n == d.function.name {
                    Some(d)
                } else {
                    lookup(pre, n)
                }) by {
                assert(self@.last() == d);
            }
        }
    }

    /// Resolves an invocation by name. Fails with `ToolNotFound`, and only
    /// so, exactly when no tool of that name is registered.
    pub fn execute(&self, name: &str) -> (r: Result<ToolDefinition, AgentError>)
        requires
            self.wf(),
        ensures
            match r {
                Ok(d) => lookup(self@, name@) == Some(d@),
                Err(e) => {
                    &&& lookup(self@, name@) is None
                    &&& e matches AgentError::ToolNotFound { name: n } && n@ == name@
                },
            },
    {
        let mut i: usize = 0;
        while i < self.tools.len()
            invariant
                i <= self.tools.len(),
                forall|j: int| 0 <= j < i ==> self@[j].function.name != name@,
                self.wf(),
            decreases self.tools.len() - i,
        {
            if str_eq(self.tools[i].function.name.as_str(), name) {
                let d = self.tools[i].clone();
                proof {
                    assert(self@[i as int] == self.tools@[i as int]@);
                    lemma_lookup_present(self@, name@, i as int);
                }
                return Ok(d);
            }
            proof {
                assert(self@[i as int] == self.tools@[i as int]@);
            }
            i = i + 1;
        }
        proof {
            lemma_lookup_absent(self@, name@);
        }
        Err(AgentError::ToolNotFound { name: String::from_str(name) })
    }

    /// Every registered tool, for the model's schema list. The iteration
    /// order is not part of the contract.
    pub fn get_definitions(&self) -> (r: Vec<ToolDefinition>)
        ensures
            r@.map_values(|d: ToolDefinition| d@) == self@,
    {
        let mut r: Vec<ToolDefinition> = Vec::new();
        let mut i: usize = 0;
        while i < self.tools.len()
            invariant
                i <= self.tools.len(),
                r@.len() == i,
                forall|j: int| 0 <= j < i ==> r@[j]@ == self.tools@[j]@,
            decreases self.tools.len() - i,
        {
            r.push(self.tools[i].clone());
            i = i + 1;
        }
        proof {
            assert(r@.map_values(|d: ToolDefinition| d@) =~= self@);
        }
        r
    }
}

} // verus!
