//! The GTFS trips of each route, and the RTC schedules of each bus.
use vstd::prelude::*;
use crate::association::{
    carte, cles_distinctes, lemme_carte_ajout, lemme_carte_domaine, lemme_carte_mise_a_jour,
    lemme_carte_valeur,
};
use crate::modele::{PointTemporelDansVoyage, Voyage};
use crate::texte::{caracteres, contient, contient_texte, texte_egal};

verus! {

/// The service identifiers that hold this text belong to a service that the
/// feed leaves aside.
pub open spec fn motif_multint() -> Seq<char> {
    seq!['m', 'u', 'l', 't', 'i', 'n', 't']
}

/// A trip that the feed considers: its service is not a `multint` one.
pub open spec fn voyage_retenu(v: Voyage) -> bool {
    !contient(v.service_id@, motif_multint())
}

/// The index of trips by route, built as the feed builds it: the trips are
/// taken in order, those of a `multint` service are left aside, and each
/// other trip's position is appended to the list of its route, a route
/// entering the index with its first trip.
pub open spec fn index_des_voyages(v: Seq<Voyage>) -> Map<Seq<char>, Seq<usize>>
    decreases v.len(),
{
    if v.len() == 0 {
        Map::empty()
    } else {
        let m = index_des_voyages(v.drop_last());
        let t = v.last();
        let i = (v.len() - 1) as usize;
        if !voyage_retenu(t) {
            m
        } else if m.dom().contains(t.route_id@) {
            m.insert(t.route_id@, m[t.route_id@].push(i))
        } else {
            m.insert(t.route_id@, seq![i])
        }
    }
}

/// The positions, in increasing order, of the trips of route `route` that
/// the feed considers.
pub open spec fn voyages_de_la_ligne(v: Seq<Voyage>, route: Seq<char>) -> Seq<usize>
    decreases v.len(),
{
    if v.len() == 0 {
        Seq::empty()
    } else {
        let avant = voyages_de_la_ligne(v.drop_last(), route);
        if voyage_retenu(v.last()) && v.last().route_id@ == route {
            avant.push((v.len() - 1) as usize)
        } else {
            avant
        }
    }
}

/// The index lists, for each route, exactly the trips of that route that the
/// feed considers, in their order; a route is in the index exactly when it
/// has such a trip.
pub proof fn loi_index_des_voyages(v: Seq<Voyage>, route: Seq<char>)
    requires
        v.len() <= usize::MAX,
    ensures
        index_des_voyages(v).dom().contains(route) <==> voyages_de_la_ligne(v, route).len() > 0,
        index_des_voyages(v).dom().contains(route) ==> index_des_voyages(v)[route]
            == voyages_de_la_ligne(v, route),
        forall|k: int|
            0 <= k < voyages_de_la_ligne(v, route).len() ==> {
                let i = #[trigger] voyages_de_la_ligne(v, route)[k];
                &&& i < v.len()
                &&& v[i as int].route_id@ == route
                &&& voyage_retenu(v[i as int])
            },
    decreases v.len(),
{
    if v.len() > 0 {
        loi_index_des_voyages(v.drop_last(), route);
        let avant = voyages_de_la_ligne(v.drop_last(), route);
        assert forall|k: int| 0 <= k < voyages_de_la_ligne(v, route).len() implies {
            let i = #[trigger] voyages_de_la_ligne(v, route)[k];
            &&& i < v.len()
            &&& v[i as int].route_id@ == route
            &&& voyage_retenu(v[i as int])
        } by {
            if k < avant.len() {
                assert(voyages_de_la_ligne(v, route)[k] == avant[k]);
                assert(v.drop_last()[avant[k] as int] == v[avant[k] as int]);
            }
        }
    }
}

/// The trips of each route, by their position in the list of trips.
pub struct IndexVoyages {
    routes: Vec<String>,
    listes: Vec<Vec<usize>>,
}

pub open spec fn vues_textes(s: Seq<String>) -> Seq<Seq<char>> {
    s.map_values(|t: String| t@)
}

pub open spec fn vues_listes(s: Seq<Vec<usize>>) -> Seq<Seq<usize>> {
    s.map_values(|l: Vec<usize>| l@)
}

impl View for IndexVoyages {
    type V = Map<Seq<char>, Seq<usize>>;

    closed spec fn view(&self) -> Map<Seq<char>, Seq<usize>> {
        carte(vues_textes(self.routes@), vues_listes(self.listes@))
    }
}

/// The place of `route` among `routes`.
fn trouver_route(routes: &Vec<String>, route: &String) -> (r: Option<usize>)
    ensures
        r matches Some(j) ==> j < routes@.len() && routes@[j as int]@ == route@,
        r is None ==> forall|k: int| 0 <= k < routes@.len() ==> routes@[k]@ != route@,
{
    let mut j: usize = 0;
    while j < routes.len()
        invariant
            j <= routes@.len(),
            forall|k: int| 0 <= k < j ==> routes@[k]@ != route@,
        decreases routes@.len() - j,
    {
        if texte_egal(&routes[j], route) {
            return Some(j);
        }
        j = j + 1;
    }
    None
}

/// Whether a trip is one that the feed considers.
pub fn est_voyage_retenu(v: &Voyage) -> (r: bool)
    ensures
        r == voyage_retenu(*v),
{
    let motif = vec!['m', 'u', 'l', 't', 'i', 'n', 't'];
    assert(motif@ =~= motif_multint());
    let service = caracteres(v.service_id.as_str());
    !contient_texte(&service, &motif)
}

impl IndexVoyages {
    #[verifier::type_invariant]
    spec fn bien_forme(self) -> bool {
        &&& self.routes@.len() == self.listes@.len()
        &&& cles_distinctes(vues_textes(self.routes@))
    }

    /// Indexes the trips by route, leaving aside those of a `multint` service.
    pub fn construire(voyages: &Vec<Voyage>) -> (r: IndexVoyages)
        ensures
            r@ == index_des_voyages(voyages@),
    {
        let mut routes: Vec<String> = Vec::new();
        let mut listes: Vec<Vec<usize>> = Vec::new();
        let mut i: usize = 0;
        assert(voyages@.take(0) =~= Seq::<Voyage>::empty());
        while i < voyages.len()
            invariant
                i <= voyages@.len(),
                routes@.len() == listes@.len(),
                cles_distinctes(vues_textes(routes@)),
                carte(vues_textes(routes@), vues_listes(listes@)) == index_des_voyages(
                    voyages@.take(i as int),
                ),
            decreases voyages@.len() - i,
        {
            let ghost avant = voyages@.take(i as int);
            let ghost apres = voyages@.take(i + 1);
            assert(apres.drop_last() =~= avant);
            assert(apres.last() == voyages@[i as int]);
            let v = &voyages[i];
            if est_voyage_retenu(v) {
                let ghost cles = vues_textes(routes@);
                let ghost vals = vues_listes(listes@);
                let trouve = trouver_route(&routes, &v.route_id);
                if let Some(j) = trouve {
                    proof {
                        assert(cles[j as int] == v.route_id@);
                        lemme_carte_valeur(cles, vals, j as int);
                        lemme_carte_mise_a_jour(cles, vals, j as int, vals[j as int].push(i));
                    }
                    let mut l = listes.remove(j);
                    l.push(i);
                    listes.insert(j, l);
                    assert(vues_listes(listes@) =~= vals.update(j as int, vals[j as int].push(i)));
                } else {
                    proof {
                        assert(!cles.contains(v.route_id@)) by {
                            if cles.contains(v.route_id@) {
                                let k = choose|k: int| 0 <= k < cles.len() && cles[k] == v.route_id@;
                                assert(routes@[k]@ == v.route_id@);
                            }
                        }
                        lemme_carte_domaine(cles, vals, v.route_id@);
                        lemme_carte_ajout(cles, vals, v.route_id@, seq![i]);
                    }
                    routes.push(v.route_id.clone());
                    let mut nouvelle: Vec<usize> = Vec::new();
                    nouvelle.push(i);
                    assert(nouvelle@ =~= seq![i]);
                    listes.push(nouvelle);
                    assert(vues_textes(routes@) =~= cles.push(v.route_id@));
                    assert(vues_listes(listes@) =~= vals.push(seq![i]));
                }
            }
            i = i + 1;
        }
        assert(voyages@.take(i as int) =~= voyages@);
        IndexVoyages { routes, listes }
    }

    /// The trips of route `route`, `None` when the route is not in the index.
    pub fn voyages_de(&self, route: &String) -> (r: Option<&Vec<usize>>)
        ensures
            r is Some <==> self@.dom().contains(route@),
            r matches Some(l) ==> l@ == self@[route@],
    {
        proof {
            use_type_invariant(self);
        }
        let ghost cles = vues_textes(self.routes@);
        let ghost vals = vues_listes(self.listes@);
        match trouver_route(&self.routes, route) {
            Some(j) => {
                proof {
                    lemme_carte_valeur(cles, vals, j as int);
                }
                Some(&self.listes[j])
            },
            None => {
                proof {
                    lemme_carte_domaine(cles, vals, route@);
                    if cles.contains(route@) {
                        let k = choose|k: int| 0 <= k < cles.len() && cles[k] == route@;
                        assert(self.routes@[k]@ == route@);
                    }
                }
                None
            },
        }
    }
}

/// The schedules that the RTC API gave, by trip and bus.
pub struct TableHoraires {
    cles: Vec<(String, i64)>,
    horaires: Vec<Vec<PointTemporelDansVoyage>>,
}

pub open spec fn vues_cles(s: Seq<(String, i64)>) -> Seq<(Seq<char>, i64)> {
    s.map_values(|k: (String, i64)| (k.0@, k.1))
}

pub open spec fn vues_horaires(s: Seq<Vec<PointTemporelDansVoyage>>) -> Seq<
    Seq<PointTemporelDansVoyage>,
> {
    s.map_values(|h: Vec<PointTemporelDansVoyage>| h@)
}

impl View for TableHoraires {
    type V = Map<(Seq<char>, i64), Seq<PointTemporelDansVoyage>>;

    closed spec fn view(&self) -> Map<(Seq<char>, i64), Seq<PointTemporelDansVoyage>> {
        carte(vues_cles(self.cles@), vues_horaires(self.horaires@))
    }
}

impl TableHoraires {
    #[verifier::type_invariant]
    spec fn bien_formee(self) -> bool {
        &&& self.cles@.len() == self.horaires@.len()
        &&& cles_distinctes(vues_cles(self.cles@))
    }

    /// An empty table.
    pub fn new() -> (r: TableHoraires)
        ensures
            r@ == Map::<(Seq<char>, i64), Seq<PointTemporelDansVoyage>>::empty(),
    {
        let r = TableHoraires { cles: Vec::new(), horaires: Vec::new() };
        assert(r@ =~= Map::<(Seq<char>, i64), Seq<PointTemporelDansVoyage>>::empty());
        r
    }

    fn position(&self, id_voyage: &String, id_autobus: i64) -> (r: Option<usize>)
        ensures
            r matches Some(j) ==> j < self.cles@.len() && vues_cles(self.cles@)[j as int] == (
                id_voyage@,
                id_autobus,
            ),
            r is None ==> !vues_cles(self.cles@).contains((id_voyage@, id_autobus)),
    {
        let ghost cles = vues_cles(self.cles@);
        let mut j: usize = 0;
        while j < self.cles.len()
            invariant
                j <= self.cles@.len(),
                cles == vues_cles(self.cles@),
                forall|k: int| 0 <= k < j ==> cles[k] != (id_voyage@, id_autobus),
            decreases self.cles@.len() - j,
        {
            if self.cles[j].1 == id_autobus && texte_egal(&self.cles[j].0, id_voyage) {
                return Some(j);
            }
            j = j + 1;
        }
        proof {
            if cles.contains((id_voyage@, id_autobus)) {
                let k = choose|k: int| 0 <= k < cles.len() && cles[k] == (id_voyage@, id_autobus);
            }
        }
        None
    }

    /// Records the schedule of a trip and bus, replacing any earlier one
    /// (`HashMap::insert`).
    pub fn inserer(&mut self, id_voyage: String, id_autobus: i64, horaires: Vec<PointTemporelDansVoyage>)
        ensures
            final(self)@ == old(self)@.insert((id_voyage@, id_autobus), horaires@),
    {
        proof {
            use_type_invariant(&*self);
        }
        let ghost cles = vues_cles(self.cles@);
        let ghost vals = vues_horaires(self.horaires@);
        let place = self.position(&id_voyage, id_autobus);
        let mut table = TableHoraires::new();
        std::mem::swap(&mut table, self);
        let TableHoraires { cles: mut cles_table, horaires: mut horaires_table } = table;
        match place {
            Some(j) => {
                proof {
                    lemme_carte_mise_a_jour(cles, vals, j as int, horaires@);
                }
                horaires_table.remove(j);
                horaires_table.insert(j, horaires);
                assert(vues_horaires(horaires_table@) =~= vals.update(j as int, horaires@));
            },
            None => {
                proof {
                    lemme_carte_ajout(cles, vals, (id_voyage@, id_autobus), horaires@);
                }
                let ghost k = (id_voyage@, id_autobus);
                cles_table.push((id_voyage, id_autobus));
                horaires_table.push(horaires);
                assert(vues_cles(cles_table@) =~= cles.push(k));
                assert(vues_horaires(horaires_table@) =~= vals.push(horaires@));
            },
        }
        *self = TableHoraires { cles: cles_table, horaires: horaires_table };
    }

    /// The schedule of a trip and bus (`HashMap::get`).
    pub fn obtenir(&self, id_voyage: &String, id_autobus: i64) -> (r: Option<
        &Vec<PointTemporelDansVoyage>,
    >)
        ensures
            r is Some <==> self@.dom().contains((id_voyage@, id_autobus)),
            r matches Some(h) ==> h@ == self@[(id_voyage@, id_autobus)],
    {
        proof {
            use_type_invariant(self);
        }
        let ghost cles = vues_cles(self.cles@);
        let ghost vals = vues_horaires(self.horaires@);
        proof {
            lemme_carte_domaine(cles, vals, (id_voyage@, id_autobus));
        }
        match self.position(id_voyage, id_autobus) {
            Some(j) => {
                proof {
                    lemme_carte_valeur(cles, vals, j as int);
                }
                Some(&self.horaires[j])
            },
            None => None,
        }
    }
}

/// Reading a schedule back gives what was last recorded for that trip and
/// bus, and recording leaves the others as they were.
pub proof fn loi_lecture_apres_ecriture(
    table: Map<(Seq<char>, i64), Seq<PointTemporelDansVoyage>>,
    cle: (Seq<char>, i64),
    autre: (Seq<char>, i64),
    horaires: Seq<PointTemporelDansVoyage>,
)
    requires
        autre != cle,
    ensures
        table.insert(cle, horaires)[cle] == horaires,
        table.insert(cle, horaires).dom().contains(autre) <==> table.dom().contains(autre),
        table.dom().contains(autre) ==> table.insert(cle, horaires)[autre] == table[autre],
{
}

/// The text `a`, then `multint`, then `b`.
pub open spec fn autour_de_multint(a: Seq<char>, b: Seq<char>) -> Seq<char> {
    a + seq!['m', 'u', 'l', 't', 'i', 'n', 't'] + b
}

/// A trip is left out of the index exactly when `multint` occurs anywhere in
/// its service identifier (`str::contains`).
pub proof fn loi_multint(v: Voyage)
    ensures
        voyage_retenu(v) <==> !exists|a: Seq<char>, b: Seq<char>|
            #[trigger] autour_de_multint(a, b) == v.service_id@,
{
    let s = v.service_id@;
    let m = seq!['m', 'u', 'l', 't', 'i', 'n', 't'];
    assert(m == motif_multint());
    if contient(s, m) {
        let i = choose|i: int| 0 <= i && i + m.len() <= s.len() && #[trigger] s.subrange(i, i + m.len()) =~= m;
        let a = s.take(i);
        let b = s.skip(i + 7);
        assert(autour_de_multint(a, b) =~= s);
    }
    if exists|a: Seq<char>, b: Seq<char>| #[trigger] autour_de_multint(a, b) == s {
        let (a, b) = choose|a: Seq<char>, b: Seq<char>| #[trigger] autour_de_multint(a, b) == s;
        assert(s.subrange(a.len() as int, (a.len() + m.len()) as int) =~= m);
    }
}

} // verus!
