use rtc_quebec_gtfs_rt::appariement::choisir_voyage;
use rtc_quebec_gtfs_rt::calendrier::DateCivile;
use rtc_quebec_gtfs_rt::flux::{calculer_entites, faire_les_donnees_gtfs_rt};
use rtc_quebec_gtfs_rt::index::{IndexVoyages, TableHoraires};
use rtc_quebec_gtfs_rt::modele::{
    ArretDansPointTemporel, EntiteVehicule, ErreurFlux, PointTemporelDansVoyage, PositionDeBus, PremierArret,
    ReponsePositions, Service, Voyage,
};
use rtc_quebec_gtfs_rt::requetes::{
    apres_tentative, requetes_d_horaires, requetes_de_positions, url_des_horaires, url_des_parcours, url_des_positions,
    TENTATIVES_MAX,
};
use rtc_quebec_gtfs_rt::modele::Parcour;

fn voyage(id: &str, route: &str, service: &str, code: Option<&str>, depart: Option<u32>) -> Voyage {
    Voyage {
        id: id.to_string(),
        route_id: route.to_string(),
        service_id: service.to_string(),
        premier_arret: Some(PremierArret { code: code.map(|c| c.to_string()), depart }),
    }
}

fn position(autobus: i64, voyage: &str, date: &str) -> PositionDeBus {
    PositionDeBus { id_autobus: autobus, id_voyage: voyage.to_string(), date_mise_jour: date.to_string() }
}

fn point(horaire: &str, arret: &str) -> PointTemporelDansVoyage {
    PointTemporelDansVoyage {
        horaire: horaire.to_string(),
        horaire_minutes: 0,
        ntr: false,
        arret: ArretDansPointTemporel {
            no_arret: arret.to_string(),
            nom: String::new(),
            description: String::new(),
            accessible: true,
        },
    }
}

fn services() -> Vec<Service> {
    vec![
        Service { service_id: "S1".to_string(), premiere_date: DateCivile::new(2024, 6, 3) },
        Service { service_id: "S2".to_string(), premiere_date: None },
    ]
}

fn voyages() -> Vec<Voyage> {
    vec![
        voyage("T1", "1-800", "S1", Some("1000"), Some(28800)),
        voyage("T2", "1-800", "S1", Some("1000"), Some(30600)),
        voyage("T3", "1-800", "S1", Some("2000"), Some(28800)),
        voyage("T4", "1-800", "S1_multint", Some("1000"), Some(30000)),
        voyage("T5", "1-11", "S2", Some("3000"), Some(0)),
    ]
}

fn reponses() -> Vec<ReponsePositions> {
    vec![
        ReponsePositions {
            parcours: "800".to_string(),
            direction: "0".to_string(),
            positions: vec![
                position(1501, "V1", "2024-06-03T08:20:05"),
                position(1502, "0", "2024-06-03T08:21:00"),
                position(1503, "V3", "2024-06-03T08:40:00"),
            ],
        },
        ReponsePositions { parcours: "999".to_string(), direction: "1".to_string(), positions: vec![position(1, "V", "x")] },
        ReponsePositions {
            parcours: "11".to_string(),
            direction: "1".to_string(),
            positions: vec![position(1601, "V9", "2024-06-03T09:00:00")],
        },
    ]
}

fn table() -> TableHoraires {
    let mut t = TableHoraires::new();
    t.inserer("V1".to_string(), 1501, vec![point("2024-06-03T08:25:00-04:00", "1000")]);
    t.inserer("V9".to_string(), 1601, vec![point("2024-06-03T09:00:00-04:00", "3000")]);
    t
}

fn resume(e: &EntiteVehicule) -> (String, Option<(String, String)>, String, usize, usize, u64) {
    (
        e.id.clone(),
        e.voyage.as_ref().map(|d| (d.trip_id.clone(), d.route_id.clone())),
        e.vehicule.clone(),
        e.reponse,
        e.position,
        e.horodatage,
    )
}

#[test]
fn tour_de_test_complet() {
    let r = faire_les_donnees_gtfs_rt(&voyages(), &services(), &reponses(), &table(), 1717417300, 0).unwrap();
    assert!(r.voyages.is_none());
    assert!(r.alertes.is_none());
    let flux = r.vehicles.unwrap();
    assert_eq!(flux.version, "2.0");
    assert_eq!(flux.horodatage, 1717417300);
    let entites: Vec<_> = flux.entites.iter().map(resume).collect();
    assert_eq!(
        entites,
        vec![
            ("800-1501".to_string(), Some(("T2".to_string(), "1-800".to_string())), "1501".to_string(), 0, 0, 1717417205),
            ("800-1503".to_string(), None, "1503".to_string(), 0, 2, 1717418400),
            ("11-1601".to_string(), None, "1601".to_string(), 2, 0, 1717419600),
        ]
    );
}

#[test]
fn voyage_le_plus_proche_de_l_horaire() {
    // The schedule says 08:29 at stop 1000: T2 (08:30) is nearer than T1 (08:00).
    let mut t = TableHoraires::new();
    t.inserer("V1".to_string(), 1501, vec![point("2024-06-03T08:29:00-04:00", "1000")]);
    let e = calculer_entites(&voyages(), &services(), &reponses()[..1].to_vec(), &t, 0, 0).unwrap();
    assert_eq!(e[0].voyage.as_ref().unwrap().trip_id, "T2");
    // 08:05: T1.  T3 starts at 08:00 too but at another stop; T4 is a multint trip.
    let mut t = TableHoraires::new();
    t.inserer("V1".to_string(), 1501, vec![point("2024-06-03T08:05:00-04:00", "1000")]);
    let e = calculer_entites(&voyages(), &services(), &reponses()[..1].to_vec(), &t, 0, 0).unwrap();
    assert_eq!(e[0].voyage.as_ref().unwrap().trip_id, "T1");
    // At stop 2000 only T3 starts.
    let mut t = TableHoraires::new();
    t.inserer("V1".to_string(), 1501, vec![point("2024-06-03T12:00:00-04:00", "2000")]);
    let e = calculer_entites(&voyages(), &services(), &reponses()[..1].to_vec(), &t, 0, 0).unwrap();
    assert_eq!(e[0].voyage.as_ref().unwrap().trip_id, "T3");
    // No trip starts at stop 4000; an empty schedule gives no trip either.
    let mut t = TableHoraires::new();
    t.inserer("V1".to_string(), 1501, vec![point("2024-06-03T08:05:00-04:00", "4000")]);
    t.inserer("V3".to_string(), 1503, vec![]);
    let e = calculer_entites(&voyages(), &services(), &reponses()[..1].to_vec(), &t, 0, 0).unwrap();
    assert!(e[0].voyage.is_none());
    assert!(e[1].voyage.is_none());
}

fn trip_pour_horaire(horaire: &str) -> Option<String> {
    let mut t = TableHoraires::new();
    t.inserer("V1".to_string(), 1501, vec![point(horaire, "1000")]);
    let e = calculer_entites(&voyages(), &services(), &vec![reponses().remove(0)], &t, 0, 0).unwrap();
    e[0].voyage.as_ref().map(|d| d.trip_id.clone())
}

#[test]
fn horaires_rfc3339_et_ecarts() {
    // T1 leaves at 08:00 EDT (12:00Z), T2 at 08:30 EDT (12:30Z).
    assert_eq!(trip_pour_horaire("2024-06-03T12:14:00Z"), Some("T1".to_string()));
    assert_eq!(trip_pour_horaire("2024-06-03T12:16:00+00:00"), Some("T2".to_string()));
    assert_eq!(trip_pour_horaire("2024-06-03T07:16:00-05:00"), Some("T2".to_string()));
    // exactly half-way: the earlier start
    assert_eq!(trip_pour_horaire("2024-06-03T08:15:00-04:00"), Some("T1".to_string()));
    // distances are whole seconds rounded toward zero: 900.4 s and 899.6 s
    assert_eq!(trip_pour_horaire("2024-06-03T08:15:00.4-04:00"), Some("T2".to_string()));
    assert_eq!(trip_pour_horaire("2024-06-03T08:14:59.6-04:00"), Some("T1".to_string()));
    // half a second after half-way: 900.5 s rounds to 900, 899.5 s to 899
    assert_eq!(trip_pour_horaire("2024-06-03T08:15:00.5-04:00"), Some("T2".to_string()));
    assert!(calculer_entites(&voyages(), &services(), &vec![reponses().remove(0)], &{
        let mut t = TableHoraires::new();
        t.inserer("V1".to_string(), 1501, vec![point("2024-06-03 08:15", "1000")]);
        t
    }, 0, 0).is_err());
}

#[test]
fn choix_a_egalite() {
    assert_eq!(choisir_voyage(&vec![(0, 100), (1, 50), (2, 100)], &vec![10, -10, 10]), 1);
    assert_eq!(choisir_voyage(&vec![(0, 100), (1, 100)], &vec![-5, 5]), 0);
    assert_eq!(choisir_voyage(&vec![(0, 100), (1, 100)], &vec![6, 5]), 1);
    assert_eq!(choisir_voyage(&vec![(7, 1)], &vec![i64::MIN]), 0);
}

#[test]
fn refus_du_flux() {
    let une = |t: &TableHoraires, v: &Vec<Voyage>, pos: &str| {
        let rep = vec![ReponsePositions {
            parcours: "800".to_string(),
            direction: "0".to_string(),
            positions: vec![position(1501, "V1", pos)],
        }];
        calculer_entites(v, &services(), &rep, t, 0, 0).map(|_| ())
    };
    let mut horaire_illisible = TableHoraires::new();
    horaire_illisible.inserer("V1".to_string(), 1501, vec![point("08:25", "1000")]);
    assert_eq!(une(&horaire_illisible, &voyages(), "2024-06-03T08:20:05"), Err(ErreurFlux::HoraireIllisible));
    assert_eq!(une(&table(), &voyages(), "hier"), Err(ErreurFlux::DateIllisible));
    assert_eq!(une(&table(), &voyages(), "2024-03-10T02:30:00"), Err(ErreurFlux::HeureLocaleInexistante));
    let mut sans_code = voyages();
    sans_code[2].premier_arret.as_mut().unwrap().code = None;
    assert_eq!(une(&table(), &sans_code, "2024-06-03T08:20:05"), Err(ErreurFlux::CodeArretInconnu));
    // Without a schedule for the bus, the codes are not looked at.
    assert_eq!(une(&TableHoraires::new(), &sans_code, "2024-06-03T08:20:05"), Ok(()));
    let mut sans_depart = voyages();
    sans_depart[1].premier_arret.as_mut().unwrap().depart = None;
    assert_eq!(une(&table(), &sans_depart, "2024-06-03T08:20:05"), Err(ErreurFlux::DepartInconnu));
    let mut sans_arret = voyages();
    sans_arret[0].premier_arret = None;
    assert_eq!(une(&TableHoraires::new(), &sans_arret, "2024-06-03T08:20:05"), Err(ErreurFlux::VoyageSansArret));
    // A trip without service date needs no departure.
    let mut hors_service = voyages();
    hors_service[4].premier_arret = None;
    let rep = vec![reponses().remove(2)];
    assert!(calculer_entites(&hors_service, &services(), &rep, &TableHoraires::new(), 0, 0).is_ok());
}

#[test]
fn index_par_route() {
    let v = voyages();
    let index = IndexVoyages::construire(&v);
    assert_eq!(index.voyages_de(&"1-800".to_string()), Some(&vec![0, 1, 2]));
    assert_eq!(index.voyages_de(&"1-11".to_string()), Some(&vec![4]));
    assert_eq!(index.voyages_de(&"800".to_string()), None);
    let seulement_multint = vec![voyage("X", "1-9", "multint", None, None)];
    assert_eq!(IndexVoyages::construire(&seulement_multint).voyages_de(&"1-9".to_string()), None);
}

#[test]
fn table_des_horaires() {
    let mut t = TableHoraires::new();
    assert!(t.obtenir(&"V1".to_string(), 1).is_none());
    t.inserer("V1".to_string(), 1, vec![point("a", "1")]);
    t.inserer("V1".to_string(), 2, vec![point("b", "2")]);
    t.inserer("V1".to_string(), 1, vec![point("c", "3"), point("d", "4")]);
    let h = t.obtenir(&"V1".to_string(), 1).unwrap();
    assert_eq!(h.len(), 2);
    assert_eq!(h[0].horaire, "c");
    assert_eq!(t.obtenir(&"V1".to_string(), 2).unwrap()[0].horaire, "b");
    assert!(t.obtenir(&"V2".to_string(), 1).is_none());
}

#[test]
fn requetes_a_l_api() {
    assert_eq!(url_des_parcours(), "https://wsmobile.rtcquebec.ca/api/v2/horaire/ListeParcours?source=appmobileios");
    assert_eq!(
        url_des_horaires("12345", -7),
        "https://wsmobile.rtcquebec.ca/api/v3/horaire/ListeHoraire_Autobus?source=appmobileios&idVoyage=12345&idAutobus=-7"
    );
    assert_eq!(
        url_des_positions("800", "1"),
        "https://wssiteweb.rtcquebec.ca/api/v2/horaire/ListeAutobus_Parcours/?noParcours=800&codeDirection=1"
    );
    let parcours = vec![
        Parcour { no_parcours: "800".to_string(), code_direction_principale: "0".to_string(), code_direction_retour: "1".to_string() },
        Parcour { no_parcours: "11".to_string(), code_direction_principale: "2".to_string(), code_direction_retour: "3".to_string() },
    ];
    let attendu: Vec<(String, String)> = [("800", "0"), ("800", "1"), ("11", "2"), ("11", "3")]
        .iter()
        .map(|(a, b)| (a.to_string(), b.to_string()))
        .collect();
    assert_eq!(requetes_de_positions(&parcours), attendu);
    let horaires = requetes_d_horaires(&reponses());
    assert_eq!(
        horaires,
        vec![
            ("V1".to_string(), 1501),
            ("0".to_string(), 1502),
            ("V3".to_string(), 1503),
            ("V".to_string(), 1),
            ("V9".to_string(), 1601)
        ]
    );
}

#[test]
fn relances_des_horaires() {
    assert_eq!(TENTATIVES_MAX, 5);
    assert_eq!(apres_tentative(0, true), None);
    assert_eq!(apres_tentative(0, false), Some(1));
    assert_eq!(apres_tentative(3, false), Some(4));
    assert_eq!(apres_tentative(4, false), None);
    // five failures in a row: five attempts
    let mut echecs = 0;
    let mut tentatives = 1;
    while let Some(n) = apres_tentative(echecs, false) {
        echecs = n;
        tentatives += 1;
    }
    assert_eq!(tentatives, 5);
}

#[test]
fn un_autobus_signale_deux_fois() {
    // Bus 1501 appears in both directions of route 800: the first report makes
    // the entity; the second is left out, even with an unreadable update time.
    let mut rep = reponses();
    rep.truncate(1);
    rep.push(ReponsePositions {
        parcours: "800".to_string(),
        direction: "1".to_string(),
        positions: vec![position(1501, "V7", "hier"), position(1504, "V8", "2024-06-03T08:45:00")],
    });
    let r = faire_les_donnees_gtfs_rt(&voyages(), &services(), &rep, &table(), 0, 0).unwrap();
    let ids: Vec<String> = r.vehicles.unwrap().entites.iter().map(|e| e.id.clone()).collect();
    assert_eq!(ids, vec!["800-1501".to_string(), "800-1503".to_string(), "800-1504".to_string()]);
}

#[test]
fn horaire_a_une_seconde_intercalaire() {
    // 12:14:60Z is read as 12:14:59 plus one second: T1 (12:00Z) is 900 s away.
    assert_eq!(trip_pour_horaire("2024-06-03T12:14:60Z"), Some("T1".to_string()));
    // 12:15:60Z: T1 is 960 s away, T2 (12:30Z) 840 s.
    assert_eq!(trip_pour_horaire("2024-06-03T12:15:60Z"), Some("T2".to_string()));
}
