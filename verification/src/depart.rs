//! When each GTFS trip of a route starts on the first day of its service.
use vstd::prelude::*;
use crate::calendrier::{date_valide, INSTANT_MAX, INSTANT_MIN};
use crate::fuseau::{instants_a_montreal, instants_locaux_montreal, ResultatLocal};
use crate::modele::{ErreurFlux, PremierArret, Service, Voyage};
use crate::texte::texte_egal;

verus! {

/// The first calendar date of the service `service` (year, month, day):
/// `None` when the service is not listed or has no date.
pub open spec fn premiere_date_du_service(services: Seq<Service>, service: Seq<char>) -> Option<
    (i32, u32, u32),
>
    decreases services.len(),
{
    if services.len() == 0 {
        None
    } else if services[0].service_id@ == service {
        match services[0].premiere_date {
            Some(d) => Some(d@),
            None => None,
        }
    } else {
        premiere_date_du_service(services.drop_first(), service)
    }
}

/// Half a day, in seconds: GTFS times count from noon minus twelve hours.
pub const DEMI_JOURNEE: i64 = 43200;

/// The start of a trip, given the instants of local noon on its service day:
/// noon must be one instant; the reference midnight is twelve hours earlier,
/// and the trip starts at the departure time of its first stop time after it.
/// Each step is refused where chrono refuses it: no single noon, an instant
/// out of chrono's range, no stop time, no departure time.
pub open spec fn depart_selon_midi(midi: Seq<i64>, premier: Option<PremierArret>) -> Result<
    i64,
    ErreurFlux,
> {
    if midi.len() != 1 {
        Err(ErreurFlux::MidiIntrouvable)
    } else {
        let minuit = midi[0] - DEMI_JOURNEE;
        if !(INSTANT_MIN <= minuit <= INSTANT_MAX) {
            Err(ErreurFlux::InstantHorsLimites)
        } else {
            match premier {
                None => Err(ErreurFlux::VoyageSansArret),
                Some(a) => match a.depart {
                    None => Err(ErreurFlux::DepartInconnu),
                    Some(d) => if minuit + d <= INSTANT_MAX {
                        Ok((minuit + d) as i64)
                    } else {
                        Err(ErreurFlux::InstantHorsLimites)
                    },
                },
            }
        }
    }
}

/// The start of a trip: `None` when its service has no date (the trip is then
/// left out), else the start computed from local noon in Montréal on the
/// first date of its service.
pub open spec fn depart_du_voyage(v: Voyage, services: Seq<Service>) -> Option<
    Result<i64, ErreurFlux>,
> {
    match premiere_date_du_service(services, v.service_id@) {
        None => None,
        Some(d) => Some(
            depart_selon_midi(instants_locaux_montreal(d.0, d.1, d.2, 12, 0, 0), v.premier_arret),
        ),
    }
}

/// The starts of the trips `ligne` (positions in `v`), in the order of
/// `ligne`, for those whose service has a date; the first refusal otherwise.
pub open spec fn departs_de_la_ligne(
    v: Seq<Voyage>,
    services: Seq<Service>,
    ligne: Seq<usize>,
) -> Result<Seq<(usize, i64)>, ErreurFlux>
    decreases ligne.len(),
{
    if ligne.len() == 0 {
        Ok(Seq::empty())
    } else {
        match departs_de_la_ligne(v, services, ligne.drop_last()) {
            Err(e) => Err(e),
            Ok(avant) => match depart_du_voyage(v[ligne.last() as int], services) {
                None => Ok(avant),
                Some(Err(e)) => Err(e),
                Some(Ok(t)) => Ok(avant.push((ligne.last(), t))),
            },
        }
    }
}

proof fn lemme_departs_erreur(v: Seq<Voyage>, services: Seq<Service>, ligne: Seq<usize>, i: int)
    requires
        0 <= i <= ligne.len(),
        departs_de_la_ligne(v, services, ligne.take(i)) is Err,
    ensures
        departs_de_la_ligne(v, services, ligne) == departs_de_la_ligne(v, services, ligne.take(i)),
    decreases ligne.len() - i,
{
    if i == ligne.len() {
        assert(ligne.take(i) =~= ligne);
    } else {
        assert(ligne.drop_last().take(i) =~= ligne.take(i));
        lemme_departs_erreur(v, services, ligne.drop_last(), i);
    }
}

/// The first calendar date of a service.
pub fn premiere_date(services: &Vec<Service>, service: &String) -> (r: Option<(i32, u32, u32)>)
    ensures
        r == premiere_date_du_service(services@, service@),
        r matches Some(d) ==> date_valide(d.0 as int, d.1 as int, d.2 as int),
{
    let mut i: usize = 0;
    assert(services@.skip(0) =~= services@);
    while i < services.len()
        invariant
            i <= services@.len(),
            premiere_date_du_service(services@, service@) == premiere_date_du_service(
                services@.skip(i as int),
                service@,
            ),
        decreases services@.len() - i,
    {
        let ghost reste = services@.skip(i as int);
        assert(reste[0] == services@[i as int]);
        assert(reste.drop_first() =~= services@.skip(i + 1));
        if texte_egal(&services[i].service_id, service) {
            return match &services[i].premiere_date {
                Some(d) => Some(d.valeur()),
                None => None,
            };
        }
        i = i + 1;
    }
    None
}

/// The start of a trip from the instants of local noon on its service day.
pub fn heure_de_depart_selon_midi(midi: &ResultatLocal, premier: &Option<PremierArret>) -> (r:
    Result<i64, ErreurFlux>)
    ensures
        r == depart_selon_midi(midi@, *premier),
        r matches Ok(t) ==> INSTANT_MIN <= t <= INSTANT_MAX,
{
    match midi {
        ResultatLocal::Unique(m) => {
            if *m < INSTANT_MIN + DEMI_JOURNEE || *m > INSTANT_MAX + DEMI_JOURNEE {
                return Err(ErreurFlux::InstantHorsLimites);
            }
            let minuit = *m - DEMI_JOURNEE;
            match premier {
                None => Err(ErreurFlux::VoyageSansArret),
                Some(a) => match a.depart {
                    None => Err(ErreurFlux::DepartInconnu),
                    Some(d) => {
                        if d as i64 <= INSTANT_MAX - minuit {
                            Ok(minuit + d as i64)
                        } else {
                            Err(ErreurFlux::InstantHorsLimites)
                        }
                    },
                },
            }
        },
        _ => Err(ErreurFlux::MidiIntrouvable),
    }
}

/// The start of a trip, `None` when its service has no date.
pub fn depart_du_voyage_exec(v: &Voyage, services: &Vec<Service>) -> (r: Option<
    Result<i64, ErreurFlux>,
>)
    ensures
        r == depart_du_voyage(*v, services@),
        r matches Some(Ok(t)) ==> INSTANT_MIN <= t <= INSTANT_MAX,
{
    match premiere_date(services, &v.service_id) {
        None => None,
        Some((annee, mois, jour)) => {
            let midi = instants_a_montreal(annee, mois, jour, 12, 0, 0);
            Some(heure_de_depart_selon_midi(&midi, &v.premier_arret))
        },
    }
}

/// The starts of the trips of a route.
pub fn departs_de_la_ligne_exec(voyages: &Vec<Voyage>, services: &Vec<Service>, ligne: &Vec<usize>) -> (r:
    Result<Vec<(usize, i64)>, ErreurFlux>)
    requires
        forall|k: int| 0 <= k < ligne@.len() ==> #[trigger] ligne@[k] < voyages@.len(),
    ensures
        match r {
            Ok(d) => departs_de_la_ligne(voyages@, services@, ligne@) == Ok::<Seq<(usize, i64)>, ErreurFlux>(d@),
            Err(e) => departs_de_la_ligne(voyages@, services@, ligne@) == Err::<Seq<(usize, i64)>, ErreurFlux>(e),
        },
        r matches Ok(d) ==> forall|k: int|
            0 <= k < d@.len() ==> (#[trigger] d@[k]).0 < voyages@.len() && INSTANT_MIN <= d@[k].1
                <= INSTANT_MAX,
{
    let mut d: Vec<(usize, i64)> = Vec::new();
    let mut i: usize = 0;
    assert(ligne@.take(0) =~= Seq::<usize>::empty());
    while i < ligne.len()
        invariant
            i <= ligne@.len(),
            forall|k: int| 0 <= k < ligne@.len() ==> #[trigger] ligne@[k] < voyages@.len(),
            departs_de_la_ligne(voyages@, services@, ligne@.take(i as int)) == Ok::<
                Seq<(usize, i64)>,
                ErreurFlux,
            >(d@),
            forall|k: int|
                0 <= k < d@.len() ==> (#[trigger] d@[k]).0 < voyages@.len() && INSTANT_MIN
                    <= d@[k].1 <= INSTANT_MAX,
        decreases ligne@.len() - i,
    {
        let ghost avant = ligne@.take(i as int);
        let ghost apres = ligne@.take(i + 1);
        assert(apres.drop_last() =~= avant);
        assert(apres.last() == ligne@[i as int]);
        let j = ligne[i];
        match depart_du_voyage_exec(&voyages[j], services) {
            None => {},
            Some(Err(e)) => {
                proof {
                    lemme_departs_erreur(voyages@, services@, ligne@, i + 1);
                }
                return Err(e);
            },
            Some(Ok(t)) => {
                d.push((j, t));
            },
        }
        i = i + 1;
    }
    assert(ligne@.take(i as int) =~= ligne@);
    Ok(d)
}

/// A trip starts at local noon of its service day minus twelve hours plus its
/// departure time, whatever that time (a departure after midnight, 25:00:00,
/// counts more than a day); and it gets that start whenever the reference
/// midnight and the start are within chrono's range.
pub proof fn loi_depart_depuis_midi(midi: i64, code: Option<String>, depart: u32)
    ensures
        depart_selon_midi(seq![midi], Some(PremierArret { code: code, depart: Some(depart) })) matches Ok(
            t,
        ) ==> t == midi - 43200 + depart,
        INSTANT_MIN <= midi - 43200 && midi - 43200 + depart <= INSTANT_MAX ==> depart_selon_midi(
            seq![midi],
            Some(PremierArret { code: code, depart: Some(depart) }),
        ) == Ok::<i64, ErreurFlux>((midi - 43200 + depart) as i64),
{
}

} // verus!
