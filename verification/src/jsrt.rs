//! Script-runtime state: execution contexts, a context registry and a named
//! binding registry.
//!
//! Actual script execution belongs to an external engine; the state machine
//! here validates inputs and tracks each context's state.

use vstd::prelude::*;

use crate::assoc::{
    lemma_umap_dom, lemma_umap_index, lemma_umap_push, lemma_umap_remove, lemma_umap_update, ufind,
    ukeys_unique, umap_of,
};
use crate::errors::{JsRuntimeError, VeloraError, VeloraResult};
use crate::strings::{spec_contains, str_contains, str_is_blank, trim_spec};
use crate::types::JsContextId;

verus! {

/// Execution state of a context.
#[derive(Debug, Clone, PartialEq)]
pub enum ContextState {
    /// Ready to execute.
    Ready,
    /// Currently executing.
    Executing,
    /// Stopped on an error.
    Error(String),
}

/// A script execution context.
#[derive(Debug)]
pub struct JsContext {
    /// Identifier of this context.
    pub id: JsContextId,
    /// Current execution state.
    pub state: ContextState,
}

impl JsContext {
    /// The identifier (ghost).
    pub open spec fn spec_id(self) -> JsContextId {
        self.id
    }

    /// Creates a ready context.
    pub fn new(id: JsContextId) -> (r: VeloraResult<JsContext>)
        ensures
            r is Ok,
            r->Ok_0.spec_id() == id,
            r->Ok_0.state == ContextState::Ready,
    {
        Ok(JsContext { id, state: ContextState::Ready })
    }

    /// The context identifier.
    pub fn id(&self) -> (r: JsContextId)
        ensures
            r == self.spec_id(),
    {
        self.id
    }

    /// The current state.
    pub fn state(&self) -> (r: &ContextState)
        ensures
            *r == self.state,
    {
        &self.state
    }

    /// Runs one script: a blank script is rejected and the state kept; a
    /// script holding a syntax fault stops the context on an error;
    /// otherwise the context returns to ready.
    pub fn execute(&mut self, script: &str) -> (r: VeloraResult<()>)
        ensures
            final(self).spec_id() == old(self).spec_id(),
            trim_spec(script@).len() == 0 ==> (r matches Err(
                VeloraError::JsRuntime(JsRuntimeError::InvalidScript(_)),
            )) && final(self).state == old(self).state,
            trim_spec(script@).len() > 0 && spec_contains(script@, "syntax error"@) ==> (r
                matches Err(VeloraError::JsRuntime(JsRuntimeError::ExecutionFailed(_)))) && (
            final(self).state matches ContextState::Error(_)),
            trim_spec(script@).len() > 0 && !spec_contains(script@, "syntax error"@) ==> r is Ok
                && final(self).state == ContextState::Ready,
    {
        if str_is_blank(script) {
            return Err(
                VeloraError::JsRuntime(
                    JsRuntimeError::InvalidScript("script cannot be empty".to_owned()),
                ),
            );
        }
        self.state = ContextState::Executing;
        if str_contains(script, "syntax error") {
            self.state = ContextState::Error("script syntax fault".to_owned());
            return Err(
                VeloraError::JsRuntime(
                    JsRuntimeError::ExecutionFailed("script syntax fault".to_owned()),
                ),
            );
        }
        self.state = ContextState::Ready;
        Ok(())
    }

    /// Whether the context is ready.
    pub fn is_ready(&self) -> (r: bool)
        ensures
            r == (self.state is Ready),
    {
        matches!(self.state, ContextState::Ready)
    }

    /// Whether the context is executing.
    pub fn is_executing(&self) -> (r: bool)
        ensures
            r == (self.state is Executing),
    {
        matches!(self.state, ContextState::Executing)
    }

    /// Whether the context stopped on an error.
    pub fn has_error(&self) -> (r: bool)
        ensures
            r == (self.state is Error),
    {
        matches!(self.state, ContextState::Error(_))
    }

    /// The error message, when the context stopped on an error.
    pub fn get_error(&self) -> (r: Option<&str>)
        ensures
            self.state is Error ==> r is Some && r->0@ == (self.state->Error_0)@,
            !(self.state is Error) ==> r is None,
    {
        match &self.state {
            ContextState::Error(msg) => Some(msg.as_str()),
            _ => None,
        }
    }

    /// Returns the context to the ready state.
    pub fn reset(&mut self)
        ensures
            final(self).spec_id() == old(self).spec_id(),
            final(self).state == ContextState::Ready,
    {
        self.state = ContextState::Ready;
    }
}

/// A registry of named bindings.
pub struct DomBindings<V> {
    bindings: Vec<(String, V)>,
}

impl<V> DomBindings<V> {
    /// The registry as a map (ghost).
    pub closed spec fn view(self) -> Map<Seq<char>, V> {
        crate::assoc::smap_of(self.bindings@)
    }

    /// The registry's own invariant: unique names.
    pub closed spec fn wf(self) -> bool {
        crate::assoc::skeys_unique(self.bindings@)
    }

    /// Number of bindings (ghost).
    pub closed spec fn spec_len(self) -> nat {
        self.bindings@.len()
    }

    /// Creates an empty registry.
    pub fn new() -> (r: VeloraResult<DomBindings<V>>)
        ensures
            r is Ok,
            r->Ok_0.wf(),
            r->Ok_0@ == Map::<Seq<char>, V>::empty(),
            r->Ok_0.spec_len() == 0,
    {
        Ok(DomBindings { bindings: Vec::new() })
    }

    /// Registers a binding; a name registered twice is rejected.
    pub fn register_binding(&mut self, name: &str, binding: V) -> (r: VeloraResult<()>)
        requires
            old(self).wf(),
        ensures
            final(self).wf(),
            old(self)@.contains_key(name@) ==> (r matches Err(
                VeloraError::JsRuntime(JsRuntimeError::InvalidScript(_)),
            )) && final(self)@ == old(self)@,
            !old(self)@.contains_key(name@) ==> r is Ok && final(self)@ == old(self)@.insert(
                name@,
                binding,
            ) && final(self).spec_len() == old(self).spec_len() + 1,
    {
        proof {
            crate::assoc::lemma_smap_dom(self.bindings@, name@);
        }
        match crate::assoc::sfind(&self.bindings, name) {
            Some(_) => Err(
                VeloraError::JsRuntime(
                    JsRuntimeError::InvalidScript("binding already exists".to_owned()),
                ),
            ),
            None => {
                let owned = name.to_owned();
                proof {
                    crate::assoc::lemma_smap_push(self.bindings@, (owned, binding));
                }
                self.bindings.push((owned, binding));
                proof {
                    assert(self.bindings@.last().0@ == name@);
                }
                Ok(())
            },
        }
    }

    /// The binding registered under `name`, if any.
    pub fn get_binding(&self, name: &str) -> (r: Option<&V>)
        requires
            self.wf(),
        ensures
            match r {
                Some(v) => self@.contains_key(name@) && *v == self@[name@],
                None => !self@.contains_key(name@),
            },
    {
        crate::assoc::sget(&self.bindings, name)
    }

    /// Whether a binding is registered under `name`.
    pub fn has_binding(&self, name: &str) -> (r: bool)
        ensures
            r == self@.contains_key(name@),
    {
        proof {
            crate::assoc::lemma_smap_dom(self.bindings@, name@);
        }
        match crate::assoc::sfind(&self.bindings, name) {
            Some(_) => true,
            None => false,
        }
    }

    /// Removes the binding under `name`; returns whether one was there.
    pub fn remove_binding(&mut self, name: &str) -> (r: bool)
        requires
            old(self).wf(),
        ensures
            final(self).wf(),
            r == old(self)@.contains_key(name@),
            final(self)@ == old(self)@.remove(name@),
            r ==> final(self).spec_len() == old(self).spec_len() - 1,
            !r ==> final(self).spec_len() == old(self).spec_len(),
    {
        match crate::assoc::sremove(&mut self.bindings, name) {
            Some(_) => true,
            None => false,
        }
    }

    /// Number of bindings.
    pub fn binding_count(&self) -> (r: usize)
        ensures
            r == self.spec_len(),
    {
        self.bindings.len()
    }
}

/// A registry of script contexts keyed by identifier.
pub struct JsRuntime {
    contexts: Vec<(u64, JsContext)>,
    next_context_id: u64,
}

impl JsRuntime {
    /// The registry as a map (ghost).
    pub closed spec fn view(self) -> Map<u64, JsContext> {
        umap_of(self.contexts@)
    }

    /// The registry's own invariant: unique identifiers, each context keyed
    /// by its own, all below the allocation counter.
    pub closed spec fn wf(self) -> bool {
        &&& ukeys_unique(self.contexts@)
        &&& forall|i: int|
            0 <= i < self.contexts@.len() ==> (#[trigger] self.contexts@[i]).1.spec_id().0
                == self.contexts@[i].0 && self.contexts@[i].0 < self.next_context_id
    }

    /// Number of contexts (ghost).
    pub closed spec fn spec_len(self) -> nat {
        self.contexts@.len()
    }

    /// The allocation counter (ghost).
    pub closed spec fn spec_next(self) -> u64 {
        self.next_context_id
    }

    /// Creates an empty runtime.
    pub fn new() -> (r: VeloraResult<JsRuntime>)
        ensures
            r is Ok,
            r->Ok_0.wf(),
            r->Ok_0@ == Map::<u64, JsContext>::empty(),
            r->Ok_0.spec_len() == 0,
            r->Ok_0.spec_next() == 1,
    {
        Ok(JsRuntime { contexts: Vec::new(), next_context_id: 1 })
    }

    /// Allocates a fresh, ready context and returns its identifier.
    pub fn create_context(&mut self) -> (r: VeloraResult<JsContextId>)
        requires
            old(self).wf(),
            old(self).spec_next() < u64::MAX,
        ensures
            final(self).wf(),
            r is Ok,
            r->Ok_0.0 == old(self).spec_next(),
            !old(self)@.contains_key(r->Ok_0.0),
            final(self)@.contains_key(r->Ok_0.0),
            final(self)@[r->Ok_0.0].state == ContextState::Ready,
            final(self).spec_len() == old(self).spec_len() + 1,
            final(self).spec_next() == old(self).spec_next() + 1,
            forall|k: u64| #[trigger]
                old(self)@.contains_key(k) ==> final(self)@.contains_key(k) && final(self)@[k]
                    == old(self)@[k],
    {
        let context_id = JsContextId(self.next_context_id);
        let context = match JsContext::new(context_id) {
            Ok(context) => context,
            Err(e) => {
                proof {
                    assert(false);
                }
                return Err(e);
            },
        };
        proof {
            lemma_umap_dom(self.contexts@, context_id.0);
            lemma_umap_push(self.contexts@, (context_id.0, context));
        }
        self.contexts.push((context_id.0, context));
        self.next_context_id = self.next_context_id + 1;
        Ok(context_id)
    }

    /// Validates a script against a context: rejected when the context is
    /// unknown or the script is blank; otherwise accepted. Execution itself
    /// belongs to an external engine.
    pub fn execute_script(&self, context_id: JsContextId, script: &str) -> (r: VeloraResult<()>)
        ensures
            !self@.contains_key(context_id.0) ==> r matches Err(
                VeloraError::JsRuntime(JsRuntimeError::ExecutionFailed(_)),
            ),
            self@.contains_key(context_id.0) && trim_spec(script@).len() == 0 ==> r matches Err(
                VeloraError::JsRuntime(JsRuntimeError::InvalidScript(_)),
            ),
            self@.contains_key(context_id.0) && trim_spec(script@).len() > 0 ==> r is Ok,
    {
        proof {
            lemma_umap_dom(self.contexts@, context_id.0);
        }
        match ufind(&self.contexts, context_id.0) {
            Some(_) => {},
            None => {
                return Err(
                    VeloraError::JsRuntime(
                        JsRuntimeError::ExecutionFailed("context not found".to_owned()),
                    ),
                );
            },
        }
        if str_is_blank(script) {
            return Err(
                VeloraError::JsRuntime(
                    JsRuntimeError::InvalidScript("script cannot be empty".to_owned()),
                ),
            );
        }
        Ok(())
    }

    /// The context registered under `context_id`, if any.
    pub fn get_context(&self, context_id: JsContextId) -> (r: Option<&JsContext>)
        requires
            self.wf(),
        ensures
            match r {
                Some(c) => self@.contains_key(context_id.0) && *c == self@[context_id.0],
                None => !self@.contains_key(context_id.0),
            },
    {
        proof {
            lemma_umap_dom(self.contexts@, context_id.0);
        }
        match ufind(&self.contexts, context_id.0) {
            Some(i) => {
                proof {
                    lemma_umap_index(self.contexts@, i as int);
                }
                Some(&self.contexts[i].1)
            },
            None => None,
        }
    }

    /// Returns the context under `context_id` to the ready state; returns
    /// whether one was there.
    pub fn reset_context(&mut self, context_id: JsContextId) -> (r: bool)
        requires
            old(self).wf(),
        ensures
            final(self).wf(),
            r == old(self)@.contains_key(context_id.0),
            r ==> final(self)@.contains_key(context_id.0) && final(self)@[context_id.0].state
                == ContextState::Ready,
            !r ==> *final(self) == *old(self),
            final(self).spec_len() == old(self).spec_len(),
    {
        proof {
            lemma_umap_dom(self.contexts@, context_id.0);
        }
        match ufind(&self.contexts, context_id.0) {
            Some(i) => {
                let ghost s0 = self.contexts@;
                let entry = &mut self.contexts[i];
                entry.1.reset();
                proof {
                    lemma_umap_update(s0, i as int, self.contexts@[i as int]);
                    lemma_umap_index(self.contexts@, i as int);
                }
                true
            },
            None => false,
        }
    }

    /// Removes the context under `context_id`; returns whether one was there.
    pub fn remove_context(&mut self, context_id: JsContextId) -> (r: bool)
        requires
            old(self).wf(),
        ensures
            final(self).wf(),
            r == old(self)@.contains_key(context_id.0),
            final(self)@ == old(self)@.remove(context_id.0),
            r ==> final(self).spec_len() == old(self).spec_len() - 1,
            !r ==> *final(self) == *old(self),
    {
        proof {
            lemma_umap_dom(self.contexts@, context_id.0);
        }
        match ufind(&self.contexts, context_id.0) {
            Some(i) => {
                proof {
                    lemma_umap_remove(self.contexts@, i as int);
                }
                self.contexts.remove(i);
                true
            },
            None => {
                proof {
                    assert(self@.remove(context_id.0) =~= self@);
                }
                false
            },
        }
    }

    /// Number of contexts.
    pub fn context_count(&self) -> (r: usize)
        ensures
            r == self.spec_len(),
    {
        self.contexts.len()
    }
}

} // verus!
