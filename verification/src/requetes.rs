//! The requests that the conversion makes to the RTC API: their addresses,
//! their list, and how often a failed schedule request is tried again.
use vstd::prelude::*;
use vstd::string::*;
use crate::modele::{Parcour, PositionDeBus, ReponsePositions};
use crate::texte::{decimal_entier, ecrire_entier};

verus! {

/// The address of the list of routes.
pub fn url_des_parcours() -> (r: String)
    ensures
        r@ == "https://wsmobile.rtcquebec.ca/api/v2/horaire/ListeParcours?source=appmobileios"@,
{
    String::from_str("https://wsmobile.rtcquebec.ca/api/v2/horaire/ListeParcours?source=appmobileios")
}

/// The address of the schedule of bus `id_autobus` on trip `id_voyage`.
pub fn url_des_horaires(id_voyage: &str, id_autobus: i64) -> (r: String)
    ensures
        r@ == "https://wsmobile.rtcquebec.ca/api/v3/horaire/ListeHoraire_Autobus?source=appmobileios&idVoyage="@
            + id_voyage@ + "&idAutobus="@ + decimal_entier(id_autobus as int),
{
    let mut r = String::from_str(
        "https://wsmobile.rtcquebec.ca/api/v3/horaire/ListeHoraire_Autobus?source=appmobileios&idVoyage=",
    );
    r.append(id_voyage);
    r.append("&idAutobus=");
    ecrire_entier(&mut r, id_autobus);
    r
}

/// The address of the buses of route `route` in direction `direction`.
pub fn url_des_positions(route: &str, direction: &str) -> (r: String)
    ensures
        r@ == "https://wssiteweb.rtcquebec.ca/api/v2/horaire/ListeAutobus_Parcours/?noParcours="@
            + route@ + "&codeDirection="@ + direction@,
{
    let mut r = String::from_str(
        "https://wssiteweb.rtcquebec.ca/api/v2/horaire/ListeAutobus_Parcours/?noParcours=",
    );
    r.append(route);
    r.append("&codeDirection=");
    r.append(direction);
    r
}

/// The position requests (route, direction) of a list of routes: for each
/// route, its main direction then its return direction.
pub open spec fn requetes_attendues(parcours: Seq<Parcour>) -> Seq<(Seq<char>, Seq<char>)>
    decreases parcours.len(),
{
    if parcours.len() == 0 {
        Seq::empty()
    } else {
        let p = parcours.last();
        requetes_attendues(parcours.drop_last()).push((p.no_parcours@, p.code_direction_principale@)).push(
            (p.no_parcours@, p.code_direction_retour@),
        )
    }
}

pub open spec fn vues_requetes(s: Seq<(String, String)>) -> Seq<(Seq<char>, Seq<char>)> {
    s.map_values(|q: (String, String)| (q.0@, q.1@))
}

/// Each route gives two requests, in the order of the routes: its main
/// direction, then its return direction.
pub proof fn loi_requetes_de_positions(parcours: Seq<Parcour>)
    ensures
        requetes_attendues(parcours).len() == 2 * parcours.len(),
        forall|i: int|
            0 <= i < parcours.len() ==> requetes_attendues(parcours)[2 * i] == (
                (#[trigger] parcours[i]).no_parcours@,
                parcours[i].code_direction_principale@,
            ) && requetes_attendues(parcours)[2 * i + 1] == (
                parcours[i].no_parcours@,
                parcours[i].code_direction_retour@,
            ),
    decreases parcours.len(),
{
    if parcours.len() > 0 {
        loi_requetes_de_positions(parcours.drop_last());
        assert forall|i: int| 0 <= i < parcours.len() - 1 implies parcours.drop_last()[i]
            == parcours[i] by {}
    }
}

/// The position requests of the routes.
pub fn requetes_de_positions(parcours: &Vec<Parcour>) -> (r: Vec<(String, String)>)
    ensures
        vues_requetes(r@) == requetes_attendues(parcours@),
{
    let mut r: Vec<(String, String)> = Vec::new();
    let mut i: usize = 0;
    assert(parcours@.take(0) =~= Seq::<Parcour>::empty());
    assert(vues_requetes(r@) =~= Seq::<(Seq<char>, Seq<char>)>::empty());
    while i < parcours.len()
        invariant
            i <= parcours@.len(),
            vues_requetes(r@) == requetes_attendues(parcours@.take(i as int)),
        decreases parcours@.len() - i,
    {
        let ghost apres = parcours@.take(i + 1);
        assert(apres.drop_last() =~= parcours@.take(i as int));
        assert(apres.last() == parcours@[i as int]);
        let p = &parcours[i];
        let ghost avant = r@;
        r.push((p.no_parcours.clone(), p.code_direction_principale.clone()));
        r.push((p.no_parcours.clone(), p.code_direction_retour.clone()));
        assert(vues_requetes(r@) =~= vues_requetes(avant).push(
            (p.no_parcours@, p.code_direction_principale@),
        ).push((p.no_parcours@, p.code_direction_retour@)));
        i = i + 1;
    }
    assert(parcours@.take(i as int) =~= parcours@);
    r
}

/// The schedule requests (trip, bus) of the buses of the responses, in order.
pub open spec fn horaires_attendus(reponses: Seq<ReponsePositions>) -> Seq<(Seq<char>, i64)>
    decreases reponses.len(),
{
    if reponses.len() == 0 {
        Seq::empty()
    } else {
        horaires_attendus(reponses.drop_last()) + reponses.last().positions@.map_values(
            |p: PositionDeBus| (p.id_voyage@, p.id_autobus),
        )
    }
}

pub open spec fn vues_horaires_demandes(s: Seq<(String, i64)>) -> Seq<(Seq<char>, i64)> {
    s.map_values(|q: (String, i64)| (q.0@, q.1))
}

/// The schedule requests: one per bus reported, trip and bus number.
pub fn requetes_d_horaires(reponses: &Vec<ReponsePositions>) -> (r: Vec<(String, i64)>)
    ensures
        vues_horaires_demandes(r@) == horaires_attendus(reponses@),
{
    let mut r: Vec<(String, i64)> = Vec::new();
    let mut k: usize = 0;
    assert(reponses@.take(0) =~= Seq::<ReponsePositions>::empty());
    assert(vues_horaires_demandes(r@) =~= Seq::<(Seq<char>, i64)>::empty());
    while k < reponses.len()
        invariant
            k <= reponses@.len(),
            vues_horaires_demandes(r@) == horaires_attendus(reponses@.take(k as int)),
        decreases reponses@.len() - k,
    {
        let ghost apres = reponses@.take(k + 1);
        assert(apres.drop_last() =~= reponses@.take(k as int));
        assert(apres.last() == reponses@[k as int]);
        let positions = &reponses[k].positions;
        let ghost debut = r@;
        let ghost cible = positions@.map_values(|p: PositionDeBus| (p.id_voyage@, p.id_autobus));
        let mut j: usize = 0;
        while j < positions.len()
            invariant
                j <= positions@.len(),
                cible == positions@.map_values(|p: PositionDeBus| (p.id_voyage@, p.id_autobus)),
                vues_horaires_demandes(r@) == vues_horaires_demandes(debut) + cible.take(j as int),
            decreases positions@.len() - j,
        {
            let ghost avant = r@;
            r.push((positions[j].id_voyage.clone(), positions[j].id_autobus));
            assert(vues_horaires_demandes(r@) =~= vues_horaires_demandes(avant).push(cible[j as int]));
            j = j + 1;
            assert(cible.take(j as int) =~= cible.take(j - 1).push(cible[j - 1]));
            assert(vues_horaires_demandes(r@) =~= vues_horaires_demandes(debut) + cible.take(
                j as int,
            ));
        }
        assert(cible.take(j as int) =~= cible);
        k = k + 1;
    }
    assert(reponses@.take(k as int) =~= reponses@);
    r
}

/// The request `(trip, bus)` is that of some bus of some response.
pub open spec fn demande_d_un_autobus(reponses: Seq<ReponsePositions>, x: (Seq<char>, i64)) -> bool {
    exists|k: int, j: int|
        0 <= k < reponses.len() && 0 <= j < reponses[k].positions@.len() && x == (
            (#[trigger] reponses[k].positions@[j]).id_voyage@,
            reponses[k].positions@[j].id_autobus,
        )
}

/// Every bus reported gets a schedule request, those without a trip too: the
/// requests of the responses hold, for each bus of each response, its trip and
/// bus number, and nothing else.
pub proof fn loi_requetes_d_horaires(reponses: Seq<ReponsePositions>)
    ensures
        forall|k: int, j: int|
            0 <= k < reponses.len() && 0 <= j < reponses[k].positions@.len() ==> horaires_attendus(
                reponses,
            ).contains(
                (
                    (#[trigger] reponses[k].positions@[j]).id_voyage@,
                    reponses[k].positions@[j].id_autobus,
                ),
            ),
        forall|q: int|
            0 <= q < horaires_attendus(reponses).len() ==> demande_d_un_autobus(
                reponses,
                #[trigger] horaires_attendus(reponses)[q],
            ),
    decreases reponses.len(),
{
    if reponses.len() > 0 {
        let n = reponses.len() - 1;
        loi_requetes_d_horaires(reponses.drop_last());
        let avant = horaires_attendus(reponses.drop_last());
        let dernier = reponses.last().positions@.map_values(
            |p: PositionDeBus| (p.id_voyage@, p.id_autobus),
        );
        let tout = horaires_attendus(reponses);
        assert(tout == avant + dernier);
        assert forall|k: int, j: int|
            0 <= k < reponses.len() && 0 <= j < reponses[k].positions@.len() implies tout.contains(
            (
                (#[trigger] reponses[k].positions@[j]).id_voyage@,
                reponses[k].positions@[j].id_autobus,
            ),
        ) by {
            if k < n {
                assert(reponses.drop_last()[k] == reponses[k]);
                assert(reponses.drop_last()[k].positions@[j] == reponses[k].positions@[j]);
                let q = choose|q: int|
                    0 <= q < avant.len() && avant[q] == (
                        reponses[k].positions@[j].id_voyage@,
                        reponses[k].positions@[j].id_autobus,
                    );
                assert(tout[q] == avant[q]);
            } else {
                assert(tout[avant.len() + j] == dernier[j]);
            }
        }
        assert forall|q: int|
            0 <= q < horaires_attendus(reponses).len() implies demande_d_un_autobus(
            reponses,
            #[trigger] horaires_attendus(reponses)[q],
        ) by {
            if q < avant.len() {
                assert(tout[q] == avant[q]);
                let (k, j) = choose|k: int, j: int|
                    0 <= k < reponses.drop_last().len() && 0 <= j
                        < reponses.drop_last()[k].positions@.len() && avant[q] == (
                        (#[trigger] reponses.drop_last()[k].positions@[j]).id_voyage@,
                        reponses.drop_last()[k].positions@[j].id_autobus,
                    );
                assert(reponses.drop_last()[k] == reponses[k]);
                assert(reponses[k].positions@[j] == reponses.drop_last()[k].positions@[j]);
            } else {
                let j = q - avant.len();
                assert(tout[q] == dernier[j]);
                assert(reponses[n] == reponses.last());
                assert(tout[q] == (reponses[n].positions@[j].id_voyage@, reponses[n].positions@[j].id_autobus));
            }
        }
    }
}

/// How many times a schedule request is made at most.
pub const TENTATIVES_MAX: u32 = 5;

/// After an attempt at a schedule request that had already failed `echecs`
/// times: `None` to stop (the attempt succeeded, or it was the last one
/// allowed), else `Some` of the new number of failures, to try again.
pub open spec fn suite_des_tentatives(echecs: u32, reussie: bool) -> Option<u32> {
    if reussie || echecs + 1 >= TENTATIVES_MAX {
        None
    } else {
        Some((echecs + 1) as u32)
    }
}

/// Decides whether a schedule request is tried again.
pub fn apres_tentative(echecs: u32, reussie: bool) -> (r: Option<u32>)
    requires
        echecs < TENTATIVES_MAX,
    ensures
        r == suite_des_tentatives(echecs, reussie),
{
    if reussie || echecs + 1 >= TENTATIVES_MAX {
        None
    } else {
        Some(echecs + 1)
    }
}

/// The number of attempts made, from `echecs` failures, when the attempts
/// succeed or fail as `issues` says.
pub open spec fn tentatives_faites(echecs: u32, issues: Seq<bool>) -> int
    decreases issues.len(),
{
    if issues.len() == 0 {
        0
    } else {
        match suite_des_tentatives(echecs, issues[0]) {
            None => 1,
            Some(n) => 1 + tentatives_faites(n, issues.drop_first()),
        }
    }
}

/// A schedule request is made until it succeeds and at most five times: with
/// outcomes `issues` (at least five of them), the number of attempts is the
/// place of the first success plus one, or five when none of the first four
/// succeeds.
pub proof fn loi_des_tentatives(issues: Seq<bool>)
    requires
        issues.len() >= TENTATIVES_MAX,
    ensures
        1 <= tentatives_faites(0, issues) <= TENTATIVES_MAX,
        forall|i: int|
            0 <= i < tentatives_faites(0, issues) - 1 ==> !(#[trigger] issues[i]),
        tentatives_faites(0, issues) < TENTATIVES_MAX ==> issues[tentatives_faites(0, issues) - 1],
{
    lemme_tentatives(0, issues);
}

proof fn lemme_tentatives(echecs: u32, issues: Seq<bool>)
    requires
        echecs < TENTATIVES_MAX,
        issues.len() >= TENTATIVES_MAX - echecs,
    ensures
        1 <= tentatives_faites(echecs, issues) <= TENTATIVES_MAX - echecs,
        forall|i: int| 0 <= i < tentatives_faites(echecs, issues) - 1 ==> !(#[trigger] issues[i]),
        tentatives_faites(echecs, issues) < TENTATIVES_MAX - echecs ==> issues[tentatives_faites(
            echecs,
            issues,
        ) - 1],
    decreases issues.len(),
{
    match suite_des_tentatives(echecs, issues[0]) {
        None => {},
        Some(n) => {
            lemme_tentatives(n, issues.drop_first());
            assert forall|i: int| 0 <= i < tentatives_faites(echecs, issues) - 1 implies !(
            #[trigger] issues[i]) by {
                if i > 0 {
                    assert(issues.drop_first()[i - 1] == issues[i]);
                }
            }
            let t = tentatives_faites(echecs, issues);
            if t < TENTATIVES_MAX - echecs {
                assert(issues.drop_first()[t - 2] == issues[t - 1]);
            }
        },
    }
}

} // verus!
