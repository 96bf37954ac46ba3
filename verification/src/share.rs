//! A value that several owners in one thread hold at once.
use std::rc::Rc;
use vstd::cell::invcell::InvCell;
use vstd::prelude::*;

verus! {

/// A handle on a value shared by several owners in one thread. A handle made
/// by [`Shared::share`] reaches the same value as the handle it was made
/// from, so what one owner puts there the other takes out.
#[verifier::reject_recursive_types(T)]
pub struct Shared<T> {
    cell: Rc<InvCell<Option<T>, spec_fn(Option<T>) -> bool>>,
}

impl<T> Shared<T> {
    /// The cell takes any value.
    #[verifier::type_invariant]
    spec fn holds_any(&self) -> bool {
        forall|v: Option<T>| #[trigger] (*self.cell).inv(v)
    }

    /// Whether two handles reach the same value.
    pub closed spec fn same_value(&self, other: &Self) -> bool {
        self.cell == other.cell
    }

    /// A first handle on the value.
    pub fn new(store: T) -> (s: Self) {
        let cell = InvCell::new(Some(store), Ghost(|v: Option<T>| true));
        Shared { cell: Rc::new(cell) }
    }

    /// Another handle on the same value.
    pub fn share(&self) -> (s: Self)
        ensures
            s.same_value(self),
            self.same_value(&s),
    {
        proof {
            use_type_invariant(self);
        }
        Shared { cell: rc_clone(&self.cell) }
    }

    /// Takes the value out of the handles (`None` while another owner has
    /// taken it and not put it back). Nothing is stated of which value comes
    /// out: the cell that holds it carries no state that the verifier tracks.
    pub fn take(&self) -> Option<T> {
        proof {
            use_type_invariant(self);
            assert((*self.cell).inv(None));
        }
        self.cell.replace(None)
    }

    /// Puts a value back for every handle.
    pub fn put(&self, store: T) {
        proof {
            use_type_invariant(self);
            assert((*self.cell).inv(Some(store)));
        }
        let _ = self.cell.replace(Some(store));
    }
}

/// Another pointer to the same allocation.
///
/// Trusted: calls `Rc::clone`, which makes a new pointer to the allocation
/// that `rc` points to, so both reach the same value.
#[verifier::external_body]
fn rc_clone<X>(rc: &Rc<X>) -> (r: Rc<X>)
    ensures
        r == *rc,
{
    Rc::clone(rc)
}

} // verus!
