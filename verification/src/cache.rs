//! The dirty-flag cell of `rs_mois_dirty`, as the roster uses it.
//!
//! Verus cannot look inside a `Dirty<T>`, so this module names what such a
//! cell holds and states, for each method the roster calls, what the crate's
//! source does to the flag and to the stored value. Nothing here is proved:
//! these contracts are read off `rs_mois_dirty` and believed.

use vstd::prelude::*;
use rs_mois_dirty::Dirty;
use crate::fracao::Fracao;

verus! {

/// `rs_mois_dirty::Dirty`: a value together with a flag that says whether
/// the value is out of date. Both are private to the crate, so a cell is
/// only ever read and changed through the functions below.
#[verifier::external_type_specification]
#[verifier::external_body]
#[verifier::reject_recursive_types(T)]
pub struct ExDirty<T>(Dirty<T>);

/// The `dirty` flag of a cell: `true` when the stored value must be computed
/// again before it is read.
pub uninterp spec fn marcado_sujo(cache: Dirty<Option<Fracao>>) -> bool;

/// The value stored in a cell, whether or not it is still current.
pub uninterp spec fn valor_guardado(cache: Dirty<Option<Fracao>>) -> Option<Fracao>;

/// `<Dirty<T> as Default>::default`: a cell whose flag is clear and whose
/// value is `T::default()`, which for an `Option` is `None`.
#[verifier::external_body]
pub(crate) fn cache_limpo() -> (cache: Dirty<Option<Fracao>>)
    ensures
        !marcado_sujo(cache),
        valor_guardado(cache) == None::<Fracao>,
{
    Dirty::default()
}

/// `Dirty::set_dirty`: raises the flag and leaves the stored value alone.
#[verifier::external_body]
pub(crate) fn marca_sujo(cache: &mut Dirty<Option<Fracao>>)
    ensures
        marcado_sujo(*final(cache)),
        valor_guardado(*final(cache)) == valor_guardado(*old(cache)),
{
    cache.set_dirty()
}

/// `Dirty::update_if_dirty`: with the flag clear, the cell is left as it is
/// and `f` is not run, so `f` need only be callable on a cell whose flag is
/// raised; with the flag raised, the flag is cleared and the stored value
/// becomes what `f` returns. Either way the stored value is handed back.
#[verifier::external_body]
pub(crate) fn atualiza_se_sujo<F: FnOnce() -> Option<Fracao>>(
    cache: &mut Dirty<Option<Fracao>>,
    f: F,
) -> (valor: Option<Fracao>)
    requires
        marcado_sujo(*old(cache)) ==> f.requires(()),
    ensures
        !marcado_sujo(*final(cache)),
        !marcado_sujo(*old(cache)) ==> *final(cache) == *old(cache),
        marcado_sujo(*old(cache)) ==> f.ensures((), valor_guardado(*final(cache))),
        valor == valor_guardado(*final(cache)),
{
    *cache.update_if_dirty(f)
}

} // verus!
