//! The vehicle entities of the real-time feed, and the feed itself.
use vstd::prelude::*;
use crate::appariement::{voyage_de_la_position, voyage_de_la_position_exec};
use crate::calendrier::{date_heure_ecrite, lire_date_heure, INSTANT_MAX, INSTANT_MIN};
use crate::depart::{departs_de_la_ligne, departs_de_la_ligne_exec};
use crate::fuseau::{
    get_nearest_tz_from_local_result, instant_le_plus_proche, instants_a_montreal,
    instants_locaux_montreal,
};
use crate::index::{index_des_voyages, loi_index_des_voyages, IndexVoyages, TableHoraires};
use crate::modele::{
    DescripteurVoyage, EntiteVehicule, EntiteVue, ErreurFlux, FluxVehicules, PointTemporelDansVoyage,
    PositionDeBus, ReponsePositions, ResponseGtfsRt, Service, Voyage,
};
use crate::texte::{
    ajouter_caractere, ajouter_texte, decimal_entier, ecrire_entier, entier_en_texte, texte_egal,
};

verus! {

/// The GTFS route of an RTC route: its number after `1-`.
pub open spec fn route_gtfs(parcours: Seq<char>) -> Seq<char> {
    seq!['1', '-'] + parcours
}

/// The identifier of a vehicle entity: the RTC route, `-`, the bus number.
pub open spec fn id_entite(parcours: Seq<char>, id_autobus: i64) -> Seq<char> {
    parcours + seq!['-'] + decimal_entier(id_autobus as int)
}

/// The bus reports that carry no trip: their trip identifier is `0`.
pub open spec fn sans_voyage(p: PositionDeBus) -> bool {
    p.id_voyage@ == seq!['0']
}

/// The instant of a bus update written as local Montréal time: its reading
/// when there is one, the one nearer to now in a fold; refused when the text
/// is not a valid date and time or the time does not exist in Montréal.
pub open spec fn horodatage_de_la_position(texte: Seq<char>, maintenant_s: i64, maintenant_ns: u32) -> Result<
    i64,
    ErreurFlux,
> {
    match date_heure_ecrite(texte) {
        None => Err(ErreurFlux::DateIllisible),
        Some(dh) => match instant_le_plus_proche(
            instants_locaux_montreal(dh.0, dh.1, dh.2, dh.3, dh.4, dh.5),
            maintenant_s,
            maintenant_ns,
        ) {
            None => Err(ErreurFlux::HeureLocaleInexistante),
            Some(t) => Ok(t),
        },
    }
}

/// The schedule recorded for a bus, if any.
pub open spec fn horaires_de(
    table: Map<(Seq<char>, i64), Seq<PointTemporelDansVoyage>>,
    p: PositionDeBus,
) -> Option<Seq<PointTemporelDansVoyage>> {
    if table.dom().contains((p.id_voyage@, p.id_autobus)) {
        Some(table[(p.id_voyage@, p.id_autobus)])
    } else {
        None
    }
}

/// The entity of bus `p`, the `j`-th of response `k` on RTC route `parcours`.
pub open spec fn entite_attendue(
    parcours: Seq<char>,
    p: PositionDeBus,
    voyage: Option<Seq<char>>,
    k: int,
    j: int,
    t: i64,
) -> EntiteVue {
    EntiteVue {
        id: id_entite(parcours, p.id_autobus),
        voyage: match voyage {
            Some(id) => Some((id, route_gtfs(parcours))),
            None => None,
        },
        vehicule: decimal_entier(p.id_autobus as int),
        reponse: k,
        position: j,
        horodatage: t as u64,
    }
}

/// Whether an entity with identifier `id` is among `entites`.
pub open spec fn id_present(entites: Seq<EntiteVue>, id: Seq<char>) -> bool {
    exists|q: int| 0 <= q < entites.len() && (#[trigger] entites[q]).id == id
}

/// No two entities share an identifier.
pub open spec fn ids_distincts(entites: Seq<EntiteVue>) -> bool {
    forall|q1: int, q2: int|
        0 <= q1 < q2 < entites.len() ==> (#[trigger] entites[q1]).id != (#[trigger] entites[q2]).id
}

/// The entities of the buses `positions` of response `k` on RTC route
/// `parcours`, whose GTFS trips are `ligne` with starts `departs`, after the
/// entities `precedentes` of the earlier responses: one per bus that carries a
/// trip, in order, except a bus whose entity identifier (route and bus) is
/// already in the feed: the first report of a route and bus is kept and a
/// later one is left out before anything is computed for it.  The first
/// refusal otherwise.
pub open spec fn entites_des_positions(
    v: Seq<Voyage>,
    table: Map<(Seq<char>, i64), Seq<PointTemporelDansVoyage>>,
    maintenant_s: i64,
    maintenant_ns: u32,
    k: int,
    precedentes: Seq<EntiteVue>,
    parcours: Seq<char>,
    ligne: Seq<usize>,
    departs: Seq<(usize, i64)>,
    positions: Seq<PositionDeBus>,
) -> Result<Seq<EntiteVue>, ErreurFlux>
    decreases positions.len(),
{
    if positions.len() == 0 {
        Ok(Seq::empty())
    } else {
        match entites_des_positions(
            v,
            table,
            maintenant_s,
            maintenant_ns,
            k, precedentes,
            parcours,
            ligne,
            departs,
            positions.drop_last(),
        ) {
            Err(e) => Err(e),
            Ok(avant) => {
                let p = positions.last();
                if sans_voyage(p) || id_present(precedentes + avant, id_entite(parcours, p.id_autobus)) {
                    Ok(avant)
                } else {
                    match voyage_de_la_position(v, ligne, departs, horaires_de(table, p)) {
                        Err(e) => Err(e),
                        Ok(voyage) => match horodatage_de_la_position(
                            p.date_mise_jour@,
                            maintenant_s,
                            maintenant_ns,
                        ) {
                            Err(e) => Err(e),
                            Ok(t) => Ok(
                                avant.push(
                                    entite_attendue(
                                        parcours,
                                        p,
                                        match voyage {
                                            Some(i) => Some(v[i as int].id@),
                                            None => None,
                                        },
                                        k,
                                        positions.len() - 1,
                                        t,
                                    ),
                                ),
                            ),
                        },
                    }
                }
            },
        }
    }
}

/// The entities of response `k`, after the entities `precedentes` of the
/// earlier responses: none when the GTFS feed has no trip of its route; else
/// the starts of those trips, then the entities of its buses.
pub open spec fn entites_de_la_reponse(
    v: Seq<Voyage>,
    services: Seq<Service>,
    table: Map<(Seq<char>, i64), Seq<PointTemporelDansVoyage>>,
    maintenant_s: i64,
    maintenant_ns: u32,
    k: int,
    precedentes: Seq<EntiteVue>,
    r: ReponsePositions,
) -> Result<Seq<EntiteVue>, ErreurFlux> {
    let index = index_des_voyages(v);
    let route = route_gtfs(r.parcours@);
    if !index.dom().contains(route) {
        Ok(Seq::empty())
    } else {
        match departs_de_la_ligne(v, services, index[route]) {
            Err(e) => Err(e),
            Ok(departs) => entites_des_positions(
                v,
                table,
                maintenant_s,
                maintenant_ns,
                k, precedentes,
                r.parcours@,
                index[route],
                departs,
                r.positions@,
            ),
        }
    }
}

/// The entities of the feed: those of each response, in order, each route and
/// bus once; the first refusal otherwise.
pub open spec fn entites_du_flux(
    v: Seq<Voyage>,
    services: Seq<Service>,
    table: Map<(Seq<char>, i64), Seq<PointTemporelDansVoyage>>,
    maintenant_s: i64,
    maintenant_ns: u32,
    reponses: Seq<ReponsePositions>,
) -> Result<Seq<EntiteVue>, ErreurFlux>
    decreases reponses.len(),
{
    if reponses.len() == 0 {
        Ok(Seq::empty())
    } else {
        match entites_du_flux(v, services, table, maintenant_s, maintenant_ns, reponses.drop_last()) {
            Err(e) => Err(e),
            Ok(avant) => match entites_de_la_reponse(
                v,
                services,
                table,
                maintenant_s,
                maintenant_ns,
                reponses.len() - 1, avant,
                reponses.last(),
            ) {
                Err(e) => Err(e),
                Ok(b) => Ok(avant + b),
            },
        }
    }
}

pub open spec fn vues_entites(s: Seq<EntiteVehicule>) -> Seq<EntiteVue> {
    s.map_values(|e: EntiteVehicule| e@)
}

proof fn lemme_id_present_concat(a: Seq<EntiteVue>, b: Seq<EntiteVue>, id: Seq<char>)
    ensures
        id_present(a + b, id) <==> id_present(a, id) || id_present(b, id),
{
    if id_present(a + b, id) {
        let q = choose|q: int| 0 <= q < (a + b).len() && (#[trigger] (a + b)[q]).id == id;
        if q < a.len() {
            assert(a[q] == (a + b)[q]);
        } else {
            assert(b[q - a.len()] == (a + b)[q]);
        }
    }
    if id_present(a, id) {
        let q = choose|q: int| 0 <= q < a.len() && (#[trigger] a[q]).id == id;
        assert((a + b)[q] == a[q]);
    }
    if id_present(b, id) {
        let q = choose|q: int| 0 <= q < b.len() && (#[trigger] b[q]).id == id;
        assert((a + b)[q + a.len()] == b[q]);
    }
}

proof fn lemme_positions_erreur(
    v: Seq<Voyage>,
    table: Map<(Seq<char>, i64), Seq<PointTemporelDansVoyage>>,
    maintenant_s: i64,
    maintenant_ns: u32,
    k: int,
    precedentes: Seq<EntiteVue>,
    parcours: Seq<char>,
    ligne: Seq<usize>,
    departs: Seq<(usize, i64)>,
    positions: Seq<PositionDeBus>,
    i: int,
)
    requires
        0 <= i <= positions.len(),
        entites_des_positions(
            v,
            table,
            maintenant_s,
            maintenant_ns,
            k, precedentes,
            parcours,
            ligne,
            departs,
            positions.take(i),
        ) is Err,
    ensures
        entites_des_positions(
            v,
            table,
            maintenant_s,
            maintenant_ns,
            k, precedentes,
            parcours,
            ligne,
            departs,
            positions,
        ) == entites_des_positions(
            v,
            table,
            maintenant_s,
            maintenant_ns,
            k, precedentes,
            parcours,
            ligne,
            departs,
            positions.take(i),
        ),
    decreases positions.len() - i,
{
    if i == positions.len() {
        assert(positions.take(i) =~= positions);
    } else {
        assert(positions.drop_last().take(i) =~= positions.take(i));
        lemme_positions_erreur(
            v,
            table,
            maintenant_s,
            maintenant_ns,
            k,
            precedentes,
            parcours,
            ligne,
            departs,
            positions.drop_last(),
            i,
        );
    }
}

proof fn lemme_flux_erreur(
    v: Seq<Voyage>,
    services: Seq<Service>,
    table: Map<(Seq<char>, i64), Seq<PointTemporelDansVoyage>>,
    maintenant_s: i64,
    maintenant_ns: u32,
    reponses: Seq<ReponsePositions>,
    i: int,
)
    requires
        0 <= i <= reponses.len(),
        entites_du_flux(v, services, table, maintenant_s, maintenant_ns, reponses.take(i)) is Err,
    ensures
        entites_du_flux(v, services, table, maintenant_s, maintenant_ns, reponses)
            == entites_du_flux(v, services, table, maintenant_s, maintenant_ns, reponses.take(i)),
    decreases reponses.len() - i,
{
    if i == reponses.len() {
        assert(reponses.take(i) =~= reponses);
    } else {
        assert(reponses.drop_last().take(i) =~= reponses.take(i));
        lemme_flux_erreur(v, services, table, maintenant_s, maintenant_ns, reponses.drop_last(), i);
    }
}

/// The instant of a bus update written as local Montréal time.
pub fn horodatage_de_la_position_exec(texte: &String, maintenant_s: i64, maintenant_ns: u32) -> (r:
    Result<i64, ErreurFlux>)
    requires
        maintenant_ns < 1_000_000_000,
    ensures
        r == horodatage_de_la_position(texte@, maintenant_s, maintenant_ns),
{
    match lire_date_heure(texte.as_str()) {
        None => Err(ErreurFlux::DateIllisible),
        Some((a, m, j, h, mi, s)) => {
            let instants = instants_a_montreal(a, m, j, h, mi, s);
            match get_nearest_tz_from_local_result(&instants, maintenant_s, maintenant_ns) {
                None => Err(ErreurFlux::HeureLocaleInexistante),
                Some(t) => Ok(t),
            }
        },
    }
}

fn est_sans_voyage(p: &PositionDeBus) -> (r: bool)
    ensures
        r == sans_voyage(*p),
{
    let n = p.id_voyage.as_str().unicode_len();
    if n != 1 {
        proof {
            assert(p.id_voyage@.len() != seq!['0'].len());
        }
        return false;
    }
    let c = p.id_voyage.as_str().get_char(0);
    proof {
        if c == '0' {
            assert(p.id_voyage@ =~= seq!['0']);
        } else {
            assert(p.id_voyage@[0] != seq!['0'][0]);
        }
    }
    c == '0'
}

/// `1-` followed by the RTC route.
pub fn route_gtfs_exec(parcours: &String) -> (r: String)
    ensures
        r@ == route_gtfs(parcours@),
{
    let mut r = String::new();
    ajouter_caractere(&mut r, '1');
    ajouter_caractere(&mut r, '-');
    ajouter_texte(&mut r, parcours.as_str());
    assert(r@ =~= route_gtfs(parcours@));
    r
}

/// The identifier of the entity of bus `id_autobus` on RTC route `parcours`.
pub fn id_entite_exec(parcours: &String, id_autobus: i64) -> (r: String)
    ensures
        r@ == id_entite(parcours@, id_autobus),
{
    let mut id = parcours.clone();
    ajouter_caractere(&mut id, '-');
    ecrire_entier(&mut id, id_autobus);
    assert(id@ =~= id_entite(parcours@, id_autobus));
    id
}

/// Whether an entity with identifier `id` is among `entites`.
pub fn id_present_exec(entites: &Vec<EntiteVehicule>, id: &String) -> (r: bool)
    ensures
        r == id_present(vues_entites(entites@), id@),
{
    let mut q: usize = 0;
    while q < entites.len()
        invariant
            q <= entites@.len(),
            forall|m: int| 0 <= m < q ==> (#[trigger] entites@[m]).id@ != id@,
        decreases entites@.len() - q,
    {
        if texte_egal(&entites[q].id, id) {
            assert(vues_entites(entites@)[q as int].id == id@);
            return true;
        }
        q = q + 1;
    }
    proof {
        if id_present(vues_entites(entites@), id@) {
            let m = choose|m: int| 0 <= m < vues_entites(entites@).len() && (#[trigger] vues_entites(
                entites@,
            )[m]).id == id@;
            assert(entites@[m].id@ == id@);
        }
    }
    false
}

/// The entity of a bus.
pub fn construire_entite(
    parcours: &String,
    p: &PositionDeBus,
    voyage: Option<String>,
    k: usize,
    j: usize,
    t: i64,
) -> (r: EntiteVehicule)
    ensures
        r@ == entite_attendue(
            parcours@,
            *p,
            match voyage {
                Some(id) => Some(id@),
                None => None,
            },
            k as int,
            j as int,
            t,
        ),
{
    let id = id_entite_exec(parcours, p.id_autobus);
    let descripteur = match voyage {
        Some(trip_id) => Some(DescripteurVoyage { trip_id, route_id: route_gtfs_exec(parcours) }),
        None => None,
    };
    EntiteVehicule {
        id,
        voyage: descripteur,
        vehicule: entier_en_texte(p.id_autobus),
        reponse: k,
        position: j,
        horodatage: t as u64,
    }
}

/// The entities of one response.
pub fn entites_de_la_reponse_exec(
    voyages: &Vec<Voyage>,
    services: &Vec<Service>,
    index: &IndexVoyages,
    horaires: &TableHoraires,
    maintenant_s: i64,
    maintenant_ns: u32,
    k: usize,
    precedentes: &Vec<EntiteVehicule>,
    reponse: &ReponsePositions,
) -> (r: Result<Vec<EntiteVehicule>, ErreurFlux>)
    requires
        maintenant_ns < 1_000_000_000,
        index@ == index_des_voyages(voyages@),
    ensures
        match r {
            Ok(e) => entites_de_la_reponse(
                voyages@,
                services@,
                horaires@,
                maintenant_s,
                maintenant_ns,
                k as int, vues_entites(precedentes@),
                *reponse,
            ) == Ok::<Seq<EntiteVue>, ErreurFlux>(vues_entites(e@)),
            Err(e) => entites_de_la_reponse(
                voyages@,
                services@,
                horaires@,
                maintenant_s,
                maintenant_ns,
                k as int, vues_entites(precedentes@),
                *reponse,
            ) == Err::<Seq<EntiteVue>, ErreurFlux>(e),
        },
{
    let route = route_gtfs_exec(&reponse.parcours);
    let ligne = match index.voyages_de(&route) {
        None => {
            let vide: Vec<EntiteVehicule> = Vec::new();
            assert(vues_entites(vide@) =~= Seq::<EntiteVue>::empty());
            return Ok(vide);
        },
        Some(l) => l,
    };
    let nombre_de_voyages = voyages.len();
    proof {
        assert(voyages@.len() == nombre_de_voyages);
        loi_index_des_voyages(voyages@, route@);
        assert forall|q: int| 0 <= q < ligne@.len() implies #[trigger] ligne@[q] < voyages@.len() by {
            assert(ligne@[q] == crate::index::voyages_de_la_ligne(voyages@, route@)[q]);
        }
    }
    let departs = match departs_de_la_ligne_exec(voyages, services, ligne) {
        Err(e) => {
            return Err(e);
        },
        Ok(d) => d,
    };
    let ghost positions = reponse.positions@;
    let mut entites: Vec<EntiteVehicule> = Vec::new();
    let mut j: usize = 0;
    assert(positions.take(0) =~= Seq::<PositionDeBus>::empty());
    assert(vues_entites(entites@) =~= Seq::<EntiteVue>::empty());
    while j < reponse.positions.len()
        invariant
            j <= positions.len(),
            positions == reponse.positions@,
            maintenant_ns < 1_000_000_000,
            entites_de_la_reponse(
                voyages@,
                services@,
                horaires@,
                maintenant_s,
                maintenant_ns,
                k as int, vues_entites(precedentes@),
                *reponse,
            ) == entites_des_positions(
                voyages@,
                horaires@,
                maintenant_s,
                maintenant_ns,
                k as int, vues_entites(precedentes@),
                reponse.parcours@,
                ligne@,
                departs@,
                positions,
            ),
            forall|q: int| 0 <= q < ligne@.len() ==> #[trigger] ligne@[q] < voyages@.len(),
            forall|q: int|
                0 <= q < departs@.len() ==> (#[trigger] departs@[q]).0 < voyages@.len()
                    && INSTANT_MIN <= departs@[q].1 <= INSTANT_MAX,
            entites_des_positions(
                voyages@,
                horaires@,
                maintenant_s,
                maintenant_ns,
                k as int, vues_entites(precedentes@),
                reponse.parcours@,
                ligne@,
                departs@,
                positions.take(j as int),
            ) == Ok::<Seq<EntiteVue>, ErreurFlux>(vues_entites(entites@)),
        decreases positions.len() - j,
    {
        let ghost apres = positions.take(j + 1);
        assert(apres.drop_last() =~= positions.take(j as int));
        assert(apres.last() == positions[j as int]);
        let p = &reponse.positions[j];
        let id = id_entite_exec(&reponse.parcours, p.id_autobus);
        let deja = id_present_exec(precedentes, &id) || id_present_exec(&entites, &id);
        proof {
            lemme_id_present_concat(vues_entites(precedentes@), vues_entites(entites@), id@);
        }
        if !est_sans_voyage(p) && !deja {
            let h = horaires.obtenir(&p.id_voyage, p.id_autobus);
            assert((match h {
                Some(x) => Some(x@),
                None => None,
            }) == horaires_de(horaires@, *p));
            let voyage = match voyage_de_la_position_exec(voyages, ligne, &departs, h) {
                Err(e) => {
                    proof {
                        lemme_positions_erreur(
                            voyages@,
                            horaires@,
                            maintenant_s,
                            maintenant_ns,
                            k as int,
                            vues_entites(precedentes@),
                            reponse.parcours@,
                            ligne@,
                            departs@,
                            positions,
                            j + 1,
                        );
                    }
                    return Err(e);
                },
                Ok(v) => v,
            };
            let t = match horodatage_de_la_position_exec(
                &p.date_mise_jour,
                maintenant_s,
                maintenant_ns,
            ) {
                Err(e) => {
                    proof {
                        lemme_positions_erreur(
                            voyages@,
                            horaires@,
                            maintenant_s,
                            maintenant_ns,
                            k as int,
                            vues_entites(precedentes@),
                            reponse.parcours@,
                            ligne@,
                            departs@,
                            positions,
                            j + 1,
                        );
                    }
                    return Err(e);
                },
                Ok(t) => t,
            };
            let id_voyage = match voyage {
                Some(i) => Some(voyages[i].id.clone()),
                None => None,
            };
            let e = construire_entite(&reponse.parcours, p, id_voyage, k, j, t);
            let ghost avant = entites@;
            entites.push(e);
            assert(vues_entites(entites@) =~= vues_entites(avant).push(e@));
        }
        j = j + 1;
    }
    assert(positions.take(j as int) =~= positions);
    Ok(entites)
}

/// The vehicle entities of the feed, for the buses that the RTC reported in
/// `reponses`, the GTFS trips `voyages` and services `services`, the RTC
/// schedules `horaires`, and the current time `maintenant_s` (UNIX seconds)
/// and `maintenant_ns` (nanoseconds).
pub fn calculer_entites(
    voyages: &Vec<Voyage>,
    services: &Vec<Service>,
    reponses: &Vec<ReponsePositions>,
    horaires: &TableHoraires,
    maintenant_s: i64,
    maintenant_ns: u32,
) -> (r: Result<Vec<EntiteVehicule>, ErreurFlux>)
    requires
        maintenant_ns < 1_000_000_000,
    ensures
        match r {
            Ok(e) => entites_du_flux(
                voyages@,
                services@,
                horaires@,
                maintenant_s,
                maintenant_ns,
                reponses@,
            ) == Ok::<Seq<EntiteVue>, ErreurFlux>(vues_entites(e@)),
            Err(e) => entites_du_flux(
                voyages@,
                services@,
                horaires@,
                maintenant_s,
                maintenant_ns,
                reponses@,
            ) == Err::<Seq<EntiteVue>, ErreurFlux>(e),
        },
{
    let index = IndexVoyages::construire(voyages);
    let mut entites: Vec<EntiteVehicule> = Vec::new();
    let mut k: usize = 0;
    assert(reponses@.take(0) =~= Seq::<ReponsePositions>::empty());
    assert(vues_entites(entites@) =~= Seq::<EntiteVue>::empty());
    while k < reponses.len()
        invariant
            k <= reponses@.len(),
            maintenant_ns < 1_000_000_000,
            index@ == index_des_voyages(voyages@),
            entites_du_flux(
                voyages@,
                services@,
                horaires@,
                maintenant_s,
                maintenant_ns,
                reponses@.take(k as int),
            ) == Ok::<Seq<EntiteVue>, ErreurFlux>(vues_entites(entites@)),
        decreases reponses@.len() - k,
    {
        let ghost apres = reponses@.take(k + 1);
        assert(apres.drop_last() =~= reponses@.take(k as int));
        assert(apres.last() == reponses@[k as int]);
        match entites_de_la_reponse_exec(
            voyages,
            services,
            &index,
            horaires,
            maintenant_s,
            maintenant_ns,
            k,
            &entites,
            &reponses[k],
        ) {
            Err(e) => {
                proof {
                    lemme_flux_erreur(
                        voyages@,
                        services@,
                        horaires@,
                        maintenant_s,
                        maintenant_ns,
                        reponses@,
                        k + 1,
                    );
                }
                return Err(e);
            },
            Ok(mut b) => {
                let ghost avant = entites@;
                let ghost vb = vues_entites(b@);
                entites.append(&mut b);
                assert(vues_entites(entites@) =~= vues_entites(avant) + vb);
            },
        }
        k = k + 1;
    }
    assert(reponses@.take(k as int) =~= reponses@);
    Ok(entites)
}

/// The version of GTFS Realtime that the feed follows.
pub open spec fn version_gtfs_rt() -> Seq<char> {
    seq!['2', '.', '0']
}

/// The feeds of the RTC network: a vehicle feed stamped with the current time
/// whose entities are `entites_du_flux`; no trip-update or alert feed.
pub fn faire_les_donnees_gtfs_rt(
    voyages: &Vec<Voyage>,
    services: &Vec<Service>,
    reponses: &Vec<ReponsePositions>,
    horaires: &TableHoraires,
    maintenant_s: i64,
    maintenant_ns: u32,
) -> (r: Result<ResponseGtfsRt, ErreurFlux>)
    requires
        maintenant_ns < 1_000_000_000,
    ensures
        match r {
            Ok(reponse) => {
                &&& reponse.voyages is None
                &&& reponse.alertes is None
                &&& reponse.vehicles matches Some(flux) && {
                    &&& flux.version@ == version_gtfs_rt()
                    &&& flux.horodatage == maintenant_s as u64
                    &&& entites_du_flux(
                        voyages@,
                        services@,
                        horaires@,
                        maintenant_s,
                        maintenant_ns,
                        reponses@,
                    ) == Ok::<Seq<EntiteVue>, ErreurFlux>(vues_entites(flux.entites@))
                    &&& forall|i: int, j: int|
                        0 <= i < j < flux.entites@.len() ==> (#[trigger] flux.entites@[i]).id@
                            != (#[trigger] flux.entites@[j]).id@
                }
            },
            Err(e) => entites_du_flux(
                voyages@,
                services@,
                horaires@,
                maintenant_s,
                maintenant_ns,
                reponses@,
            ) == Err::<Seq<EntiteVue>, ErreurFlux>(e),
        },
{
    let entites = match calculer_entites(
        voyages,
        services,
        reponses,
        horaires,
        maintenant_s,
        maintenant_ns,
    ) {
        Err(e) => {
            return Err(e);
        },
        Ok(e) => e,
    };
    proof {
        loi_ids_distincts(
            voyages@,
            services@,
            horaires@,
            maintenant_s,
            maintenant_ns,
            reponses@,
            vues_entites(entites@),
        );
        assert forall|i: int, j: int| 0 <= i < j < entites@.len() implies (
        #[trigger] entites@[i]).id@ != (#[trigger] entites@[j]).id@ by {
            assert(vues_entites(entites@)[i].id == entites@[i].id@);
            assert(vues_entites(entites@)[j].id == entites@[j].id@);
        }
    }
    let mut version = String::new();
    ajouter_caractere(&mut version, '2');
    ajouter_caractere(&mut version, '.');
    ajouter_caractere(&mut version, '0');
    assert(version@ =~= version_gtfs_rt());
    Ok(
        ResponseGtfsRt {
            vehicles: Some(
                FluxVehicules { version, horodatage: maintenant_s as u64, entites },
            ),
            voyages: None,
            alertes: None,
        },
    )
}

/// Each bus that carries a trip has an entity with its identifier (route and
/// bus number) in the feed, the first report of that route and bus making it;
/// the entities come in the order of the buses, describe a bus of this
/// response that carries a trip, are named after the route and the bus, and
/// any trip they name is on the bus's route.
pub proof fn loi_une_entite_par_autobus(
    v: Seq<Voyage>,
    table: Map<(Seq<char>, i64), Seq<PointTemporelDansVoyage>>,
    maintenant_s: i64,
    maintenant_ns: u32,
    k: int,
    precedentes: Seq<EntiteVue>,
    parcours: Seq<char>,
    ligne: Seq<usize>,
    departs: Seq<(usize, i64)>,
    positions: Seq<PositionDeBus>,
    entites: Seq<EntiteVue>,
)
    requires
        entites_des_positions(
            v,
            table,
            maintenant_s,
            maintenant_ns,
            k,
            precedentes,
            parcours,
            ligne,
            departs,
            positions,
        ) == Ok::<Seq<EntiteVue>, ErreurFlux>(entites),
    ensures
        forall|q: int|
            0 <= q < entites.len() ==> {
                let x = #[trigger] entites[q];
                let p = positions[x.position];
                &&& 0 <= x.position < positions.len()
                &&& !sans_voyage(p)
                &&& x.reponse == k
                &&& x.id == id_entite(parcours, p.id_autobus)
                &&& x.vehicule == decimal_entier(p.id_autobus as int)
                &&& x.voyage matches Some(d) ==> d.1 == route_gtfs(parcours)
            },
        forall|q1: int, q2: int|
            0 <= q1 < q2 < entites.len() ==> (#[trigger] entites[q1]).position < (
            #[trigger] entites[q2]).position,
        forall|j: int|
            0 <= j < positions.len() && !sans_voyage(#[trigger] positions[j]) ==> id_present(
                precedentes + entites,
                id_entite(parcours, positions[j].id_autobus),
            ),
        ids_distincts(precedentes) ==> ids_distincts(precedentes + entites),
    decreases positions.len(),
{
    if positions.len() > 0 {
        let avant = entites_des_positions(
            v,
            table,
            maintenant_s,
            maintenant_ns,
            k,
            precedentes,
            parcours,
            ligne,
            departs,
            positions.drop_last(),
        )->Ok_0;
        loi_une_entite_par_autobus(
            v,
            table,
            maintenant_s,
            maintenant_ns,
            k,
            precedentes,
            parcours,
            ligne,
            departs,
            positions.drop_last(),
            avant,
        );
        let n = positions.len() - 1;
        let p = positions[n];
        let id = id_entite(parcours, p.id_autobus);
        assert forall|q: int| 0 <= q < avant.len() implies (#[trigger] avant[q]).position < n
            && positions[avant[q].position] == positions.drop_last()[avant[q].position] by {}
        if entites.len() > avant.len() {
            assert(entites == avant.push(entites[entites.len() - 1]));
            assert(precedentes + entites == (precedentes + avant).push(entites[entites.len() - 1]));
            assert(entites[entites.len() - 1].id == id);
            assert(!id_present(precedentes + avant, id));
        } else {
            assert(entites == avant);
        }
        assert forall|j: int|
            0 <= j < positions.len() && !sans_voyage(#[trigger] positions[j]) implies id_present(
            precedentes + entites,
            id_entite(parcours, positions[j].id_autobus),
        ) by {
            let idj = id_entite(parcours, positions[j].id_autobus);
            if j < n {
                assert(positions.drop_last()[j] == positions[j]);
                assert(id_present(precedentes + avant, idj));
                let q = choose|q: int|
                    0 <= q < (precedentes + avant).len() && (#[trigger] (precedentes + avant)[q]).id
                        == idj;
                assert((precedentes + entites)[q] == (precedentes + avant)[q]);
            } else if id_present(precedentes + avant, id) {
                let q = choose|q: int|
                    0 <= q < (precedentes + avant).len() && (#[trigger] (precedentes + avant)[q]).id
                        == id;
                assert((precedentes + entites)[q] == (precedentes + avant)[q]);
            } else {
                let q = (precedentes + entites).len() - 1;
                assert((precedentes + entites)[q].id == id);
            }
        }
        assert forall|q1: int, q2: int|
            0 <= q1 < q2 < entites.len() implies (#[trigger] entites[q1]).position < (
            #[trigger] entites[q2]).position by {
            assert(entites[q1] == avant[q1]);
            if q2 < avant.len() {
                assert(entites[q2] == avant[q2]);
            }
        }
        assert forall|q: int| 0 <= q < entites.len() implies {
            let x = #[trigger] entites[q];
            let p = positions[x.position];
            &&& 0 <= x.position < positions.len()
            &&& !sans_voyage(p)
            &&& x.reponse == k
            &&& x.id == id_entite(parcours, p.id_autobus)
            &&& x.vehicule == decimal_entier(p.id_autobus as int)
            &&& x.voyage matches Some(d) ==> d.1 == route_gtfs(parcours)
        } by {
            if q < avant.len() {
                assert(entites[q] == avant[q]);
            }
        }
        if ids_distincts(precedentes) && entites.len() > avant.len() {
            let tout = precedentes + entites;
            let debut = precedentes + avant;
            assert forall|q1: int, q2: int|
                0 <= q1 < q2 < tout.len() implies (#[trigger] tout[q1]).id != (
                #[trigger] tout[q2]).id by {
                if q2 < debut.len() {
                    assert(tout[q1] == debut[q1]);
                    assert(tout[q2] == debut[q2]);
                } else {
                    assert(tout[q1] == debut[q1]);
                    if tout[q1].id == tout[q2].id {
                        assert(id_present(debut, id));
                    }
                }
            }
        }
    } else {
        assert(precedentes + entites =~= precedentes);
    }
}

/// No two entities of the feed share an identifier: a route and bus reported
/// more than once (in both directions, say) gets the entity of its first
/// report only.
pub proof fn loi_ids_distincts(
    v: Seq<Voyage>,
    services: Seq<Service>,
    table: Map<(Seq<char>, i64), Seq<PointTemporelDansVoyage>>,
    maintenant_s: i64,
    maintenant_ns: u32,
    reponses: Seq<ReponsePositions>,
    entites: Seq<EntiteVue>,
)
    requires
        entites_du_flux(v, services, table, maintenant_s, maintenant_ns, reponses) == Ok::<
            Seq<EntiteVue>,
            ErreurFlux,
        >(entites),
    ensures
        ids_distincts(entites),
    decreases reponses.len(),
{
    if reponses.len() > 0 {
        let avant = entites_du_flux(
            v,
            services,
            table,
            maintenant_s,
            maintenant_ns,
            reponses.drop_last(),
        )->Ok_0;
        loi_ids_distincts(v, services, table, maintenant_s, maintenant_ns, reponses.drop_last(), avant);
        let k = reponses.len() - 1;
        let r = reponses.last();
        let b = entites_de_la_reponse(v, services, table, maintenant_s, maintenant_ns, k, avant, r)->Ok_0;
        let index = index_des_voyages(v);
        let route = route_gtfs(r.parcours@);
        if index.dom().contains(route) {
            let departs = departs_de_la_ligne(v, services, index[route])->Ok_0;
            loi_une_entite_par_autobus(
                v,
                table,
                maintenant_s,
                maintenant_ns,
                k,
                avant,
                r.parcours@,
                index[route],
                departs,
                r.positions@,
                b,
            );
        } else {
            assert(avant + b =~= avant);
        }
    }
}

/// Every response counts, whatever their number: in a feed that is built,
/// every bus of every response that carries a trip (its trip number is not
/// `0`), on a route that the GTFS feed has (`1-` and the route number), has an
/// entity named after its route and bus number.
pub proof fn loi_chaque_reponse_compte(
    v: Seq<Voyage>,
    services: Seq<Service>,
    table: Map<(Seq<char>, i64), Seq<PointTemporelDansVoyage>>,
    maintenant_s: i64,
    maintenant_ns: u32,
    reponses: Seq<ReponsePositions>,
    entites: Seq<EntiteVue>,
)
    requires
        v.len() <= usize::MAX,
        entites_du_flux(v, services, table, maintenant_s, maintenant_ns, reponses) == Ok::<
            Seq<EntiteVue>,
            ErreurFlux,
        >(entites),
    ensures
        forall|k: int, j: int|
            0 <= k < reponses.len() && 0 <= j < reponses[k].positions@.len()
                && (#[trigger] reponses[k].positions@[j]).id_voyage@ != seq!['0']
                && index_des_voyages(v).dom().contains(seq!['1', '-'] + reponses[k].parcours@)
                ==> exists|q: int|
                0 <= q < entites.len() && (#[trigger] entites[q]).id == reponses[k].parcours@
                    + seq!['-'] + decimal_entier(reponses[k].positions@[j].id_autobus as int),
    decreases reponses.len(),
{
    if reponses.len() > 0 {
        let n = reponses.len() - 1;
        let avant = entites_du_flux(
            v,
            services,
            table,
            maintenant_s,
            maintenant_ns,
            reponses.drop_last(),
        )->Ok_0;
        loi_chaque_reponse_compte(
            v,
            services,
            table,
            maintenant_s,
            maintenant_ns,
            reponses.drop_last(),
            avant,
        );
        let r = reponses.last();
        let b = entites_de_la_reponse(v, services, table, maintenant_s, maintenant_ns, n, avant, r)->Ok_0;
        assert(entites == avant + b);
        let index = index_des_voyages(v);
        let route = route_gtfs(r.parcours@);
        if index.dom().contains(route) {
            let departs = departs_de_la_ligne(v, services, index[route])->Ok_0;
            loi_une_entite_par_autobus(
                v,
                table,
                maintenant_s,
                maintenant_ns,
                n,
                avant,
                r.parcours@,
                index[route],
                departs,
                r.positions@,
                b,
            );
        }
        assert forall|k: int, j: int|
            0 <= k < reponses.len() && 0 <= j < reponses[k].positions@.len()
                && (#[trigger] reponses[k].positions@[j]).id_voyage@ != seq!['0']
                && index_des_voyages(v).dom().contains(seq!['1', '-'] + reponses[k].parcours@)
            implies exists|q: int|
            0 <= q < entites.len() && (#[trigger] entites[q]).id == reponses[k].parcours@
                + seq!['-'] + decimal_entier(reponses[k].positions@[j].id_autobus as int) by {
            let p = reponses[k].positions@[j];
            let id = reponses[k].parcours@ + seq!['-'] + decimal_entier(p.id_autobus as int);
            if k < n {
                assert(reponses.drop_last()[k] == reponses[k]);
                assert(reponses.drop_last()[k].positions@[j] == p);
                let q = choose|q: int| 0 <= q < avant.len() && (#[trigger] avant[q]).id == id;
                assert(entites[q] == avant[q]);
            } else {
                assert(reponses[k] == r);
                assert(!sans_voyage(p));
                assert(id_entite(r.parcours@, p.id_autobus) == id);
                assert(id_present(avant + b, id));
            }
        }
    }
}

} // verus!
