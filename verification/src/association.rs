//! Association lists: parallel sequences of distinct keys and of values,
//! read as a finite map.
use vstd::prelude::*;

verus! {

/// The map that pairs `cles[i]` with `valeurs[i]`; a later pair overrides an
/// earlier one with the same key.
pub open spec fn carte<K, V>(cles: Seq<K>, valeurs: Seq<V>) -> Map<K, V>
    decreases cles.len(),
{
    if cles.len() == 0 || valeurs.len() == 0 {
        Map::empty()
    } else {
        carte(cles.drop_last(), valeurs.drop_last()).insert(cles.last(), valeurs.last())
    }
}

pub open spec fn cles_distinctes<K>(cles: Seq<K>) -> bool {
    forall|i: int, j: int| 0 <= i < cles.len() && 0 <= j < cles.len() && i != j ==> cles[i] != cles[j]
}

pub proof fn lemme_carte_domaine<K, V>(cles: Seq<K>, valeurs: Seq<V>, k: K)
    requires
        cles.len() == valeurs.len(),
    ensures
        carte(cles, valeurs).dom().contains(k) <==> cles.contains(k),
    decreases cles.len(),
{
    if cles.len() > 0 {
        lemme_carte_domaine(cles.drop_last(), valeurs.drop_last(), k);
        if cles.drop_last().contains(k) {
            let i = choose|i: int| 0 <= i < cles.drop_last().len() && cles.drop_last()[i] == k;
            assert(cles[i] == k);
        }
        if cles.contains(k) && k != cles.last() {
            let i = choose|i: int| 0 <= i < cles.len() && cles[i] == k;
            assert(cles.drop_last()[i] == k);
        }
    }
}

pub proof fn lemme_carte_valeur<K, V>(cles: Seq<K>, valeurs: Seq<V>, j: int)
    requires
        cles.len() == valeurs.len(),
        cles_distinctes(cles),
        0 <= j < cles.len(),
    ensures
        carte(cles, valeurs).dom().contains(cles[j]),
        carte(cles, valeurs)[cles[j]] == valeurs[j],
    decreases cles.len(),
{
    if j < cles.len() - 1 {
        assert(cles_distinctes(cles.drop_last()));
        lemme_carte_valeur(cles.drop_last(), valeurs.drop_last(), j);
        assert(cles[j] != cles.last());
    }
}

pub proof fn lemme_carte_mise_a_jour<K, V>(cles: Seq<K>, valeurs: Seq<V>, j: int, v: V)
    requires
        cles.len() == valeurs.len(),
        cles_distinctes(cles),
        0 <= j < cles.len(),
    ensures
        carte(cles, valeurs.update(j, v)) == carte(cles, valeurs).insert(cles[j], v),
    decreases cles.len(),
{
    let nouvelles = valeurs.update(j, v);
    if j == cles.len() - 1 {
        assert(nouvelles.drop_last() =~= valeurs.drop_last());
        lemme_carte_domaine(cles.drop_last(), valeurs.drop_last(), cles[j]);
        assert(!cles.drop_last().contains(cles[j])) by {
            if cles.drop_last().contains(cles[j]) {
                let i = choose|i: int| 0 <= i < cles.drop_last().len() && cles.drop_last()[i] == cles[j];
                assert(cles[i] == cles[j]);
            }
        }
        assert(carte(cles, nouvelles) =~= carte(cles, valeurs).insert(cles[j], v));
    } else {
        assert(cles_distinctes(cles.drop_last()));
        assert(nouvelles.drop_last() =~= valeurs.drop_last().update(j, v));
        lemme_carte_mise_a_jour(cles.drop_last(), valeurs.drop_last(), j, v);
        assert(cles[j] != cles.last());
        assert(carte(cles, nouvelles) =~= carte(cles, valeurs).insert(cles[j], v));
    }
}

pub proof fn lemme_carte_ajout<K, V>(cles: Seq<K>, valeurs: Seq<V>, k: K, v: V)
    requires
        cles.len() == valeurs.len(),
        cles_distinctes(cles),
        !cles.contains(k),
    ensures
        carte(cles.push(k), valeurs.push(v)) == carte(cles, valeurs).insert(k, v),
        cles_distinctes(cles.push(k)),
{
    assert(cles.push(k).drop_last() =~= cles);
    assert(valeurs.push(v).drop_last() =~= valeurs);
    assert forall|i: int, j: int|
        0 <= i < cles.push(k).len() && 0 <= j < cles.push(k).len() && i != j implies cles.push(
        k,
    )[i] != cles.push(k)[j] by {
        if i == cles.len() {
            assert(cles.contains(cles[j]));
        } else if j == cles.len() {
            assert(cles.contains(cles[i]));
        }
    }
}

} // verus!
