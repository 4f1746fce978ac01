//! Environments: immutable linked frames of bound values, innermost first.
use crate::value::ValueRef;
use std::rc::Rc;
use vstd::prelude::*;

verus! {

pub type EnvRef = Rc<Environment>;

pub enum Environment {
    Value { value: ValueRef, parent: EnvRef },
    Root,
}

impl Environment {
    /// The bound values, innermost first.
    pub open spec fn values(&self) -> Seq<ValueRef>
        decreases self,
    {
        match self {
            Environment::Value { value, parent } => seq![*value] + parent.values(),
            Environment::Root => Seq::empty(),
        }
    }

    /// The empty environment.
    pub fn root() -> (r: EnvRef)
        ensures
            r.values() == Seq::<ValueRef>::empty(),
            *r is Root,
    {
        Rc::new(Environment::Root)
    }

    /// `environment` with `value` bound innermost.
    pub fn extend(environment: EnvRef, value: ValueRef) -> (r: EnvRef)
        ensures
            r.values() == seq![value] + environment.values(),
            *r == (Environment::Value { value, parent: environment }),
    {
        Rc::new(Environment::Value { value, parent: environment })
    }

    /// `environment` without its innermost frame.
    pub fn pop(environment: &EnvRef) -> (r: EnvRef)
        requires
            environment.values().len() > 0,
        ensures
            r.values() == environment.values().drop_first(),
    {
        match &**environment {
            Environment::Value { value: _, parent } => {
                assert(environment.values().drop_first() =~= parent.values());
                parent.clone()
            },
            Environment::Root => {
                proof {
                    assert(false);
                }
                environment.clone()
            },
        }
    }

    /// The value bound at de Bruijn depth `depth`.
    pub fn find(&self, depth: usize) -> (r: ValueRef)
        requires
            depth < self.values().len(),
        ensures
            r == self.values()[depth as int],
        decreases depth,
    {
        match self {
            Environment::Root => vstd::pervasive::unreached(),
            Environment::Value { value, parent } => {
                if depth == 0 {
                    value.clone()
                } else {
                    let r = parent.find(depth - 1);
                    assert(self.values()[depth as int] == parent.values()[depth - 1]);
                    r
                }
            },
        }
    }
}

} // verus!
