//! A list of contracts to notify: an address is registered at most once.
use vstd::prelude::*;

verus! {

#[derive(Debug, Clone, Copy, PartialEq, Eq, Structural)]
pub enum HookError {
    /// "Given address already registered as a hook"
    HookAlreadyRegistered {},
    /// "Given address not registered as a hook"
    HookNotRegistered {},
}

/// The addresses as text, in registration order.
pub open spec fn hook_view(hooks: Seq<String>) -> Seq<Seq<char>> {
    hooks.map_values(|h: String| h@)
}

/// Position of `addr` among the hooks, if registered.
fn position(hooks: &Vec<String>, addr: &String) -> (r: Option<usize>)
    ensures
        r matches Some(i) ==> i < hooks@.len() && hooks@[i as int]@ == addr@ && forall|j: int|
            0 <= j < i ==> hooks@[j]@ != addr@,
        r is None ==> !hook_view(hooks@).contains(addr@),
{
    let mut i: usize = 0;
    while i < hooks.len()
        invariant
            i <= hooks@.len(),
            forall|j: int| 0 <= j < i ==> hooks@[j]@ != addr@,
        decreases hooks.len() - i,
    {
        if hooks[i] == *addr {
            return Some(i);
        }
        i += 1;
    }
    proof {
        if hook_view(hooks@).contains(addr@) {
            let j = choose|j: int| 0 <= j < hook_view(hooks@).len() && hook_view(hooks@)[j] == addr@;
            assert(hooks@[j]@ == addr@);
        }
    }
    None
}

/// Registers `addr`; an address already registered is refused.
pub fn add_hook(hooks: &mut Vec<String>, addr: String) -> (r: Result<(), HookError>)
    ensures
        hook_view(old(hooks)@).contains(addr@) ==> r == Err::<(), HookError>(
            HookError::HookAlreadyRegistered {},
        ) && *final(hooks) == *old(hooks),
        !hook_view(old(hooks)@).contains(addr@) ==> r is Ok && final(hooks)@ == old(hooks)@.push(
            addr,
        ),
{
    match position(hooks, &addr) {
        Some(i) => {
            proof {
                assert(hook_view(hooks@)[i as int] == addr@);
            }
            Err(HookError::HookAlreadyRegistered {})
        },
        None => {
            hooks.push(addr);
            Ok(())
        },
    }
}

/// Unregisters `addr`; an address not registered is refused.
pub fn remove_hook(hooks: &mut Vec<String>, addr: &String) -> (r: Result<(), HookError>)
    ensures
        !hook_view(old(hooks)@).contains(addr@) ==> r == Err::<(), HookError>(
            HookError::HookNotRegistered {},
        ) && *final(hooks) == *old(hooks),
        hook_view(old(hooks)@).contains(addr@) ==> r is Ok && exists|i: int|
            0 <= i < old(hooks)@.len() && old(hooks)@[i]@ == addr@ && (forall|j: int|
                0 <= j < i ==> old(hooks)@[j]@ != addr@) && final(hooks)@ == old(hooks)@.remove(i),
{
    match position(hooks, addr) {
        Some(i) => {
            proof {
                assert(hook_view(hooks@)[i as int] == addr@);
            }
            hooks.remove(i);
            Ok(())
        },
        None => Err(HookError::HookNotRegistered {}),
    }
}

/// Removes the hook at `idx` and returns it.
pub fn remove_hook_by_index(hooks: &mut Vec<String>, idx: u64) -> (r: String)
    requires
        idx < old(hooks)@.len(),
    ensures
        r == old(hooks)@[idx as int],
        final(hooks)@ == old(hooks)@.remove(idx as int),
{
    let n = hooks.len();
    assert(idx < n);
    hooks.remove(idx as usize)
}

/// No address is registered twice.
pub open spec fn distinct_hooks(hooks: Seq<String>) -> bool {
    forall|i: int, j: int| 0 <= i < j < hooks.len() ==> hooks[i]@ != hooks[j]@
}

/// Registering keeps the hooks distinct: an address is added only when it is not there.
pub proof fn law_add_keeps_distinct(hooks: Seq<String>, addr: String)
    requires
        distinct_hooks(hooks),
        !hook_view(hooks).contains(addr@),
    ensures
        distinct_hooks(hooks.push(addr)),
{
    assert forall|i: int, j: int| 0 <= i < j < hooks.push(addr).len() implies hooks.push(addr)[i]@
        != hooks.push(addr)[j]@ by {
        if j == hooks.len() {
            if hooks[i]@ == addr@ {
                assert(hook_view(hooks)[i] == addr@);
            }
        }
    }
}

/// Unregistering an address just registered gives back the hooks as they were.
pub proof fn law_remove_undoes_add(hooks: Seq<String>, addr: String, i: int)
    requires
        !hook_view(hooks).contains(addr@),
        0 <= i < hooks.push(addr).len(),
        hooks.push(addr)[i]@ == addr@,
        forall|j: int| 0 <= j < i ==> hooks.push(addr)[j]@ != addr@,
    ensures
        hooks.push(addr).remove(i) == hooks,
{
    if i < hooks.len() {
        assert(hook_view(hooks)[i] == addr@);
    }
    assert(hooks.push(addr).remove(i) =~= hooks);
}

} // verus!
