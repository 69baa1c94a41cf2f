//! Which GTFS trip a bus of the RTC serves: among the trips of its route that
//! start at the first stop of its schedule, the one whose start is nearest to
//! the scheduled time of that stop.
use vstd::prelude::*;
use crate::calendrier::{instant_admissible, INSTANT_MAX, INSTANT_MIN};
use crate::fuseau::{ecart_chrono, ecart_en_secondes, instant_rfc3339, lire_rfc3339, valeur_absolue};
use crate::depart::{depart_du_voyage, departs_de_la_ligne};
use crate::index::{index_des_voyages, loi_index_des_voyages, voyage_retenu, voyages_de_la_ligne};
use crate::modele::{ErreurFlux, PointTemporelDansVoyage, Service, Voyage};
use crate::texte::texte_egal;

verus! {

/// The code of the first stop of a trip; refused when the trip has no stop
/// time or its first stop has no code.
pub open spec fn code_du_premier_arret(v: Voyage) -> Result<Seq<char>, ErreurFlux> {
    match v.premier_arret {
        None => Err(ErreurFlux::VoyageSansArret),
        Some(a) => match a.code {
            None => Err(ErreurFlux::CodeArretInconnu),
            Some(c) => Ok(c@),
        },
    }
}

/// Every trip of `ligne` has a first stop with a code; otherwise the refusal
/// of the first one, in the order of `ligne`, that has none.
pub open spec fn codes_de_la_ligne(v: Seq<Voyage>, ligne: Seq<usize>) -> Result<(), ErreurFlux>
    decreases ligne.len(),
{
    if ligne.len() == 0 {
        Ok(())
    } else {
        match codes_de_la_ligne(v, ligne.drop_last()) {
            Err(e) => Err(e),
            Ok(_) => match code_du_premier_arret(v[ligne.last() as int]) {
                Err(e) => Err(e),
                Ok(_) => Ok(()),
            },
        }
    }
}

/// The starts (trip, instant) of the trips whose first stop is `arret`, in
/// their order.
pub open spec fn departs_a_l_arret(
    v: Seq<Voyage>,
    departs: Seq<(usize, i64)>,
    arret: Seq<char>,
) -> Seq<(usize, i64)>
    decreases departs.len(),
{
    if departs.len() == 0 {
        Seq::empty()
    } else {
        let avant = departs_a_l_arret(v, departs.drop_last(), arret);
        if code_du_premier_arret(v[departs.last().0 as int]) == Ok::<Seq<char>, ErreurFlux>(
            arret,
        ) {
            avant.push(departs.last())
        } else {
            avant
        }
    }
}

/// The candidate kept among starts `debuts` whose distances to the schedule
/// are `ecarts`: the smallest distance in absolute value; among equals, the
/// earliest start; among those, the first.  (This is the first element once
/// the candidates are sorted by start, then stably by distance.)
pub open spec fn meilleur_indice(debuts: Seq<i64>, ecarts: Seq<i64>) -> int
    decreases debuts.len(),
{
    if debuts.len() <= 1 {
        0
    } else {
        let b = meilleur_indice(debuts.drop_last(), ecarts.drop_last());
        let c = debuts.len() - 1;
        if valeur_absolue(ecarts[c] as int) < valeur_absolue(ecarts[b] as int) || (valeur_absolue(
            ecarts[c] as int,
        ) == valeur_absolue(ecarts[b] as int) && debuts[c] < debuts[b]) {
            c
        } else {
            b
        }
    }
}

/// The kept candidate has the smallest distance; no candidate at that
/// distance starts earlier; and every earlier candidate is farther or starts
/// later.
pub proof fn loi_meilleur_indice(debuts: Seq<i64>, ecarts: Seq<i64>)
    requires
        debuts.len() >= 1,
        ecarts.len() == debuts.len(),
    ensures
        0 <= meilleur_indice(debuts, ecarts) < debuts.len(),
        forall|k: int|
            0 <= k < debuts.len() ==> valeur_absolue(
                ecarts[meilleur_indice(debuts, ecarts)] as int,
            ) <= valeur_absolue(#[trigger] ecarts[k] as int),
        forall|k: int|
            0 <= k < debuts.len() && valeur_absolue(ecarts[k] as int) == valeur_absolue(
                ecarts[meilleur_indice(debuts, ecarts)] as int,
            ) ==> debuts[meilleur_indice(debuts, ecarts)] <= #[trigger] debuts[k],
        forall|k: int|
            0 <= k < meilleur_indice(debuts, ecarts) ==> valeur_absolue(
                ecarts[meilleur_indice(debuts, ecarts)] as int,
            ) < valeur_absolue(#[trigger] ecarts[k] as int) || debuts[meilleur_indice(
                debuts,
                ecarts,
            )] < debuts[k],
    decreases debuts.len(),
{
    if debuts.len() > 1 {
        loi_meilleur_indice(debuts.drop_last(), ecarts.drop_last());
        let b = meilleur_indice(debuts.drop_last(), ecarts.drop_last());
        assert(debuts.drop_last()[b] == debuts[b]);
        assert(ecarts.drop_last()[b] == ecarts[b]);
        assert forall|k: int| 0 <= k < debuts.len() - 1 implies ecarts.drop_last()[k] == ecarts[k]
            && debuts.drop_last()[k] == debuts[k] by {}
    }
}

/// The distance, in whole seconds, from the scheduled instant `horaire` to the
/// start `debut`.
pub open spec fn ecart_au_horaire(debut: i64, horaire: (i64, u32)) -> i64 {
    ecart_chrono(debut, 0, horaire.0, horaire.1)
}

/// The distances from the schedule `horaire` to each start.
pub open spec fn ecarts_au_horaire(departs: Seq<(usize, i64)>, horaire: (i64, u32)) -> Seq<i64> {
    departs.map_values(|d: (usize, i64)| ecart_au_horaire(d.1, horaire))
}

pub open spec fn instants_des_departs(departs: Seq<(usize, i64)>) -> Seq<i64> {
    departs.map_values(|d: (usize, i64)| d.1)
}

/// The GTFS trip of a bus whose schedule is `horaires` (`None` when the RTC
/// gave no schedule): when the schedule has a first stop, and once every trip
/// of the route is known to have a first stop with a code, the trip among the
/// starts `departs` that starts at that stop and is nearest to its scheduled
/// time; none when no trip starts there.
pub open spec fn voyage_de_la_position(
    v: Seq<Voyage>,
    ligne: Seq<usize>,
    departs: Seq<(usize, i64)>,
    horaires: Option<Seq<PointTemporelDansVoyage>>,
) -> Result<Option<usize>, ErreurFlux> {
    match horaires {
        None => Ok(None),
        Some(h) => if h.len() == 0 {
            Ok(None)
        } else {
            match codes_de_la_ligne(v, ligne) {
                Err(e) => Err(e),
                Ok(_) => {
                    let f = departs_a_l_arret(v, departs, h[0].arret.no_arret@);
                    if f.len() == 0 {
                        Ok(None)
                    } else {
                        match instant_rfc3339(h[0].horaire@) {
                            None => Err(ErreurFlux::HoraireIllisible),
                            Some(iso) => Ok(
                                Some(
                                    f[meilleur_indice(
                                        instants_des_departs(f),
                                        ecarts_au_horaire(f, iso),
                                    )].0,
                                ),
                            ),
                        }
                    }
                },
            }
        },
    }
}

proof fn lemme_codes_erreur(v: Seq<Voyage>, ligne: Seq<usize>, i: int)
    requires
        0 <= i <= ligne.len(),
        codes_de_la_ligne(v, ligne.take(i)) is Err,
    ensures
        codes_de_la_ligne(v, ligne) == codes_de_la_ligne(v, ligne.take(i)),
    decreases ligne.len() - i,
{
    if i == ligne.len() {
        assert(ligne.take(i) =~= ligne);
    } else {
        assert(ligne.drop_last().take(i) =~= ligne.take(i));
        lemme_codes_erreur(v, ligne.drop_last(), i);
    }
}

/// Checks that every trip of a route has a first stop with a code.
pub fn verifier_codes(voyages: &Vec<Voyage>, ligne: &Vec<usize>) -> (r: Result<(), ErreurFlux>)
    requires
        forall|k: int| 0 <= k < ligne@.len() ==> #[trigger] ligne@[k] < voyages@.len(),
    ensures
        r == codes_de_la_ligne(voyages@, ligne@),
{
    let mut i: usize = 0;
    assert(ligne@.take(0) =~= Seq::<usize>::empty());
    while i < ligne.len()
        invariant
            i <= ligne@.len(),
            forall|k: int| 0 <= k < ligne@.len() ==> #[trigger] ligne@[k] < voyages@.len(),
            codes_de_la_ligne(voyages@, ligne@.take(i as int)) == Ok::<(), ErreurFlux>(()),
        decreases ligne@.len() - i,
    {
        let ghost apres = ligne@.take(i + 1);
        assert(apres.drop_last() =~= ligne@.take(i as int));
        assert(apres.last() == ligne@[i as int]);
        let v = &voyages[ligne[i]];
        let e = match &v.premier_arret {
            None => Some(ErreurFlux::VoyageSansArret),
            Some(a) => match &a.code {
                None => Some(ErreurFlux::CodeArretInconnu),
                Some(_) => None,
            },
        };
        if let Some(e) = e {
            proof {
                lemme_codes_erreur(voyages@, ligne@, i + 1);
            }
            return Err(e);
        }
        i = i + 1;
    }
    assert(ligne@.take(i as int) =~= ligne@);
    Ok(())
}

/// The starts of the trips whose first stop is `arret`.
pub fn departs_a_l_arret_exec(voyages: &Vec<Voyage>, departs: &Vec<(usize, i64)>, arret: &String) -> (r:
    Vec<(usize, i64)>)
    requires
        forall|k: int| 0 <= k < departs@.len() ==> (#[trigger] departs@[k]).0 < voyages@.len(),
    ensures
        r@ == departs_a_l_arret(voyages@, departs@, arret@),
        forall|k: int|
            0 <= k < r@.len() ==> exists|m: int|
                0 <= m < departs@.len() && #[trigger] r@[k] == departs@[m],
{
    let mut r: Vec<(usize, i64)> = Vec::new();
    let mut i: usize = 0;
    assert(departs@.take(0) =~= Seq::<(usize, i64)>::empty());
    while i < departs.len()
        invariant
            i <= departs@.len(),
            forall|k: int| 0 <= k < departs@.len() ==> (#[trigger] departs@[k]).0 < voyages@.len(),
            r@ == departs_a_l_arret(voyages@, departs@.take(i as int), arret@),
            forall|k: int|
                0 <= k < r@.len() ==> exists|m: int|
                    0 <= m < departs@.len() && #[trigger] r@[k] == departs@[m],
        decreases departs@.len() - i,
    {
        let ghost apres = departs@.take(i + 1);
        assert(apres.drop_last() =~= departs@.take(i as int));
        assert(apres.last() == departs@[i as int]);
        let v = &voyages[departs[i].0];
        let garde = match &v.premier_arret {
            Some(a) => match &a.code {
                Some(c) => texte_egal(c, arret),
                None => false,
            },
            None => false,
        };
        if garde {
            let ghost r_avant = r@;
            r.push(departs[i]);
            assert forall|k: int| 0 <= k < r@.len() implies exists|m: int|
                0 <= m < departs@.len() && #[trigger] r@[k] == departs@[m] by {
                if k == r@.len() - 1 {
                    assert(r@[k] == departs@[i as int]);
                } else {
                    assert(r@[k] == r_avant[k]);
                }
            }
        }
        i = i + 1;
    }
    assert(departs@.take(i as int) =~= departs@);
    r
}

/// The place of the kept candidate among starts `debuts` at distances `ecarts`.
pub fn choisir_voyage(departs: &Vec<(usize, i64)>, ecarts: &Vec<i64>) -> (r: usize)
    requires
        departs@.len() >= 1,
        ecarts@.len() == departs@.len(),
    ensures
        r == meilleur_indice(instants_des_departs(departs@), ecarts@),
        r < departs@.len(),
{
    let ghost debuts = instants_des_departs(departs@);
    let mut b: usize = 0;
    let mut i: usize = 1;
    assert(debuts.take(1).len() <= 1);
    while i < departs.len()
        invariant
            1 <= i <= departs@.len(),
            ecarts@.len() == departs@.len(),
            debuts == instants_des_departs(departs@),
            b < i,
            b == meilleur_indice(debuts.take(i as int), ecarts@.take(i as int)),
        decreases departs@.len() - i,
    {
        assert(debuts.take(i + 1).drop_last() =~= debuts.take(i as int));
        assert(ecarts@.take(i + 1).drop_last() =~= ecarts@.take(i as int));
        let ec = ecarts[i] as i128;
        let eb = ecarts[b] as i128;
        let ac = if ec < 0 {
            -ec
        } else {
            ec
        };
        let ab = if eb < 0 {
            -eb
        } else {
            eb
        };
        if ac < ab || (ac == ab && departs[i].1 < departs[b].1) {
            b = i;
        }
        i = i + 1;
    }
    assert(debuts.take(i as int) =~= debuts);
    assert(ecarts@.take(i as int) =~= ecarts@);
    b
}

/// The GTFS trip of a bus, as `voyage_de_la_position` states it.
pub fn voyage_de_la_position_exec(
    voyages: &Vec<Voyage>,
    ligne: &Vec<usize>,
    departs: &Vec<(usize, i64)>,
    horaires: Option<&Vec<PointTemporelDansVoyage>>,
) -> (r: Result<Option<usize>, ErreurFlux>)
    requires
        forall|k: int| 0 <= k < ligne@.len() ==> #[trigger] ligne@[k] < voyages@.len(),
        forall|k: int|
            0 <= k < departs@.len() ==> (#[trigger] departs@[k]).0 < voyages@.len() && INSTANT_MIN
                <= departs@[k].1 <= INSTANT_MAX,
    ensures
        r == voyage_de_la_position(
            voyages@,
            ligne@,
            departs@,
            match horaires {
                Some(h) => Some(h@),
                None => None,
            },
        ),
        r matches Ok(Some(i)) ==> i < voyages@.len(),
{
    let h = match horaires {
        None => {
            return Ok(None);
        },
        Some(h) => h,
    };
    if h.len() == 0 {
        return Ok(None);
    }
    match verifier_codes(voyages, ligne) {
        Err(e) => {
            return Err(e);
        },
        Ok(_) => {},
    }
    let f = departs_a_l_arret_exec(voyages, departs, &h[0].arret.no_arret);
    if f.len() == 0 {
        return Ok(None);
    }
    let iso = match lire_rfc3339(h[0].horaire.as_str()) {
        None => {
            return Err(ErreurFlux::HoraireIllisible);
        },
        Some(iso) => iso,
    };
    let mut ecarts: Vec<i64> = Vec::new();
    let mut i: usize = 0;
    while i < f.len()
        invariant
            i <= f@.len(),
            instant_admissible(iso.0 as int, iso.1 as int),
            forall|k: int|
                0 <= k < f@.len() ==> exists|m: int|
                    0 <= m < departs@.len() && #[trigger] f@[k] == departs@[m],
            forall|k: int|
                0 <= k < departs@.len() ==> (#[trigger] departs@[k]).0 < voyages@.len()
                    && INSTANT_MIN <= departs@[k].1 <= INSTANT_MAX,
            ecarts@ == ecarts_au_horaire(f@, iso).take(i as int),
        decreases f@.len() - i,
    {
        let (_, debut) = f[i];
        assert(exists|m: int| 0 <= m < departs@.len() && f@[i as int] == departs@[m]);
        let e = ecart_en_secondes(debut, 0, iso.0, iso.1);
        ecarts.push(e);
        i = i + 1;
        assert(ecarts@ =~= ecarts_au_horaire(f@, iso).take(i as int));
    }
    assert(ecarts@ =~= ecarts_au_horaire(f@, iso));
    let k = choisir_voyage(&f, &ecarts);
    assert(exists|m: int| 0 <= m < departs@.len() && f@[k as int] == departs@[m]);
    Ok(Some(f[k].0))
}

/// Every start computed for a route belongs to a trip of the route and is that
/// trip's start; every trip of the route whose start is computed has it listed.
proof fn lemme_departs_de_la_ligne(
    v: Seq<Voyage>,
    services: Seq<Service>,
    ligne: Seq<usize>,
    departs: Seq<(usize, i64)>,
)
    requires
        departs_de_la_ligne(v, services, ligne) == Ok::<Seq<(usize, i64)>, ErreurFlux>(departs),
    ensures
        forall|k: int|
            0 <= k < departs.len() ==> ligne.contains((#[trigger] departs[k]).0) && depart_du_voyage(
                v[departs[k].0 as int],
                services,
            ) == Some(Ok::<i64, ErreurFlux>(departs[k].1)),
        forall|m: int, t: i64|
            0 <= m < ligne.len() && depart_du_voyage(v[ligne[m] as int], services) == Some(
                Ok::<i64, ErreurFlux>(t),
            ) ==> #[trigger] departs.contains((#[trigger] ligne[m], t)),
    decreases ligne.len(),
{
    if ligne.len() > 0 {
        let avant = departs_de_la_ligne(v, services, ligne.drop_last())->Ok_0;
        lemme_departs_de_la_ligne(v, services, ligne.drop_last(), avant);
        assert forall|k: int| 0 <= k < departs.len() implies ligne.contains(
            (#[trigger] departs[k]).0,
        ) && depart_du_voyage(v[departs[k].0 as int], services) == Some(
            Ok::<i64, ErreurFlux>(departs[k].1),
        ) by {
            if k < avant.len() {
                assert(departs[k] == avant[k]);
                let m = choose|m: int| 0 <= m < ligne.drop_last().len() && ligne.drop_last()[m]
                    == avant[k].0;
                assert(ligne[m] == avant[k].0);
            } else {
                assert(ligne[ligne.len() - 1] == departs[k].0);
            }
        }
        assert forall|m: int, t: i64|
            0 <= m < ligne.len() && depart_du_voyage(v[ligne[m] as int], services) == Some(
                Ok::<i64, ErreurFlux>(t),
            ) implies #[trigger] departs.contains((#[trigger] ligne[m], t)) by {
            if m < ligne.len() - 1 {
                assert(ligne.drop_last()[m] == ligne[m]);
                assert(avant.contains((ligne.drop_last()[m], t)));
                let k = choose|k: int| 0 <= k < avant.len() && avant[k] == (ligne[m], t);
                assert(departs[k] == avant[k]);
            } else {
                assert(departs[departs.len() - 1] == (ligne[m], t));
            }
        }
    }
}

/// The starts kept at a stop are starts of trips whose first stop is that
/// stop, and every such start is kept.
proof fn lemme_departs_a_l_arret(v: Seq<Voyage>, departs: Seq<(usize, i64)>, arret: Seq<char>)
    ensures
        forall|k: int|
            0 <= k < departs_a_l_arret(v, departs, arret).len() ==> departs.contains(
                #[trigger] departs_a_l_arret(v, departs, arret)[k],
            ) && code_du_premier_arret(v[departs_a_l_arret(v, departs, arret)[k].0 as int])
                == Ok::<Seq<char>, ErreurFlux>(arret),
        forall|m: int|
            0 <= m < departs.len() && code_du_premier_arret(v[departs[m].0 as int]) == Ok::<
                Seq<char>,
                ErreurFlux,
            >(arret) ==> departs_a_l_arret(v, departs, arret).contains(#[trigger] departs[m]),
    decreases departs.len(),
{
    if departs.len() > 0 {
        let avant = departs_a_l_arret(v, departs.drop_last(), arret);
        let f = departs_a_l_arret(v, departs, arret);
        lemme_departs_a_l_arret(v, departs.drop_last(), arret);
        assert forall|k: int| 0 <= k < f.len() implies departs.contains(#[trigger] f[k])
            && code_du_premier_arret(v[f[k].0 as int]) == Ok::<Seq<char>, ErreurFlux>(arret) by {
            if k < avant.len() {
                assert(f[k] == avant[k]);
                let m = choose|m: int| 0 <= m < departs.drop_last().len() && departs.drop_last()[m]
                    == avant[k];
                assert(departs[m] == avant[k]);
            } else {
                assert(departs[departs.len() - 1] == f[k]);
            }
        }
        assert forall|m: int|
            0 <= m < departs.len() && code_du_premier_arret(v[departs[m].0 as int]) == Ok::<
                Seq<char>,
                ErreurFlux,
            >(arret) implies f.contains(#[trigger] departs[m]) by {
            if m < departs.len() - 1 {
                assert(departs.drop_last()[m] == departs[m]);
                let k = choose|k: int| 0 <= k < avant.len() && avant[k] == departs[m];
                assert(f[k] == avant[k]);
            } else {
                assert(f[f.len() - 1] == departs[m]);
            }
        }
    }
}

/// The trip kept for a bus of route `route` whose schedule is `horaires` is a
/// trip of that route that the feed considers, whose first stop is the first
/// stop of the schedule, and whose start is as near to the scheduled time as
/// the start of any trip of the route that starts at that stop.
pub proof fn loi_voyage_le_plus_proche(
    v: Seq<Voyage>,
    services: Seq<Service>,
    route: Seq<char>,
    departs: Seq<(usize, i64)>,
    horaires: Seq<PointTemporelDansVoyage>,
    i: usize,
)
    requires
        v.len() <= usize::MAX,
        index_des_voyages(v).dom().contains(route),
        departs_de_la_ligne(v, services, index_des_voyages(v)[route]) == Ok::<
            Seq<(usize, i64)>,
            ErreurFlux,
        >(departs),
        voyage_de_la_position(v, index_des_voyages(v)[route], departs, Some(horaires)) == Ok::<
            Option<usize>,
            ErreurFlux,
        >(Some(i)),
    ensures
        i < v.len(),
        v[i as int].route_id@ == route,
        voyage_retenu(v[i as int]),
        code_du_premier_arret(v[i as int]) == Ok::<Seq<char>, ErreurFlux>(
            horaires[0].arret.no_arret@,
        ),
        instant_rfc3339(horaires[0].horaire@) is Some,
        exists|t: i64|
            {
                &&& depart_du_voyage(v[i as int], services) == Some(Ok::<i64, ErreurFlux>(t))
                &&& forall|j: usize|
                    #[trigger] index_des_voyages(v)[route].contains(j) && code_du_premier_arret(
                        v[j as int],
                    ) == Ok::<Seq<char>, ErreurFlux>(horaires[0].arret.no_arret@) ==> (
                    depart_du_voyage(v[j as int], services) matches Some(Ok(tj)) ==> valeur_absolue(
                        ecart_au_horaire(t, instant_rfc3339(horaires[0].horaire@)->0) as int,
                    ) <= valeur_absolue(
                        ecart_au_horaire(tj, instant_rfc3339(horaires[0].horaire@)->0) as int,
                    ))
            },
{
    let ligne = index_des_voyages(v)[route];
    let arret = horaires[0].arret.no_arret@;
    let f = departs_a_l_arret(v, departs, arret);
    let iso = instant_rfc3339(horaires[0].horaire@)->0;
    loi_index_des_voyages(v, route);
    lemme_departs_de_la_ligne(v, services, ligne, departs);
    lemme_departs_a_l_arret(v, departs, arret);
    let debuts = instants_des_departs(f);
    let ecarts = ecarts_au_horaire(f, iso);
    loi_meilleur_indice(debuts, ecarts);
    let b = meilleur_indice(debuts, ecarts);
    assert(departs.contains(f[b]));
    let kd = choose|kd: int| 0 <= kd < departs.len() && departs[kd] == f[b];
    assert(ligne.contains(departs[kd].0));
    let ml = choose|ml: int| 0 <= ml < ligne.len() && ligne[ml] == departs[kd].0;
    assert(ligne[ml] == voyages_de_la_ligne(v, route)[ml]);
    let t = f[b].1;
    assert forall|j: usize|
        #[trigger] index_des_voyages(v)[route].contains(j) && code_du_premier_arret(v[j as int])
            == Ok::<Seq<char>, ErreurFlux>(arret) implies (depart_du_voyage(v[j as int], services) matches Some(
        Ok(tj),
    ) ==> valeur_absolue(ecart_au_horaire(t, iso) as int) <= valeur_absolue(
        ecart_au_horaire(tj, iso) as int,
    )) by {
        if let Some(Ok(tj)) = depart_du_voyage(v[j as int], services) {
        let m = choose|m: int| 0 <= m < ligne.len() && ligne[m] == j;
        assert(departs.contains((ligne[m], tj)));
        let kd2 = choose|kd2: int| 0 <= kd2 < departs.len() && departs[kd2] == (j, tj);
        assert(f.contains(departs[kd2]));
        let kf = choose|kf: int| 0 <= kf < f.len() && f[kf] == departs[kd2];
        assert(ecarts[kf] == ecart_au_horaire(tj, iso));
        assert(ecarts[b] == ecart_au_horaire(t, iso));
        }
    }
}

/// A bus gets a trip whenever one can be found, with no limit on the distance
/// to its schedule: when its schedule has a first stop, every trip of the
/// route has a first stop with a code, the scheduled time reads, and some
/// start of the route is at that stop, the bus gets the trip of one of those
/// starts.
pub proof fn loi_un_voyage_des_qu_un_depart_convient(
    v: Seq<Voyage>,
    ligne: Seq<usize>,
    departs: Seq<(usize, i64)>,
    horaires: Seq<PointTemporelDansVoyage>,
    m: int,
)
    requires
        horaires.len() > 0,
        codes_de_la_ligne(v, ligne) is Ok,
        instant_rfc3339(horaires[0].horaire@) is Some,
        0 <= m < departs.len(),
        code_du_premier_arret(v[departs[m].0 as int]) == Ok::<Seq<char>, ErreurFlux>(
            horaires[0].arret.no_arret@,
        ),
    ensures
        voyage_de_la_position(v, ligne, departs, Some(horaires)) matches Ok(Some(i)) && exists|n: int|
            0 <= n < departs.len() && (#[trigger] departs[n]).0 == i && code_du_premier_arret(
                v[i as int],
            ) == Ok::<Seq<char>, ErreurFlux>(horaires[0].arret.no_arret@),
{
    let arret = horaires[0].arret.no_arret@;
    let f = departs_a_l_arret(v, departs, arret);
    let iso = instant_rfc3339(horaires[0].horaire@)->0;
    lemme_departs_a_l_arret(v, departs, arret);
    assert(f.contains(departs[m]));
    loi_meilleur_indice(instants_des_departs(f), ecarts_au_horaire(f, iso));
    let b = meilleur_indice(instants_des_departs(f), ecarts_au_horaire(f, iso));
    assert(departs.contains(f[b]));
    let n = choose|n: int| 0 <= n < departs.len() && departs[n] == f[b];
    assert(departs[n].0 == f[b].0);
}

} // verus!
