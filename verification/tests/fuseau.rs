use rtc_quebec_gtfs_rt::depart::heure_de_depart_selon_midi;
use rtc_quebec_gtfs_rt::fuseau::{get_nearest_tz_from_local_result, ResultatLocal};
use rtc_quebec_gtfs_rt::flux::horodatage_de_la_position_exec;
use rtc_quebec_gtfs_rt::depart::depart_du_voyage_exec;
use rtc_quebec_gtfs_rt::calendrier::DateCivile;
use rtc_quebec_gtfs_rt::modele::{Service, Voyage};
use rtc_quebec_gtfs_rt::calendrier::{INSTANT_MAX, INSTANT_MIN};
use rtc_quebec_gtfs_rt::modele::{ErreurFlux, PremierArret};

fn horodatage(texte: &str, maintenant_s: i64, maintenant_ns: u32) -> Result<i64, ErreurFlux> {
    horodatage_de_la_position_exec(&texte.to_string(), maintenant_s, maintenant_ns)
}

#[test]
fn heure_locale_a_montreal() {
    // EDT: UTC-4
    assert_eq!(horodatage("2024-06-01T12:00:00", 0, 0), Ok(1717257600));
    // EST: UTC-5
    assert_eq!(horodatage("2024-01-15T07:00:00", 0, 0), Ok(1705320000));
    // the clocks go forward at 02:00 on 2024-03-10
    assert_eq!(horodatage("2024-03-10T02:30:00", 0, 0), Err(ErreurFlux::HeureLocaleInexistante));
    // the clocks go back at 02:00 on 2024-11-03: 01:30 happens twice
    assert_eq!(horodatage("2024-11-03T01:30:00", 1730611800, 0), Ok(1730611800));
    assert_eq!(horodatage("2024-11-03T01:30:00", 1730615400, 0), Ok(1730615400));
    assert_eq!(horodatage("2024-11-03T01:30:00", 1730613600, 0), Ok(1730611800));
    assert_eq!(horodatage("2024-11-03T01:30:00", 1730613600, 1), Ok(1730615400));
    assert_eq!(horodatage("2024-11-03T25:30:00", 0, 0), Err(ErreurFlux::DateIllisible));
}

#[test]
fn midi_du_premier_jour_de_service() {
    let services = vec![
        Service { service_id: "ete".to_string(), premiere_date: DateCivile::new(2024, 6, 3) },
        Service { service_id: "printemps".to_string(), premiere_date: DateCivile::new(2024, 3, 10) },
        Service { service_id: "vide".to_string(), premiere_date: None },
    ];
    let voyage = |service: &str| Voyage {
        id: "T".to_string(),
        route_id: "1-800".to_string(),
        service_id: service.to_string(),
        premier_arret: arret(Some(28800)),
    };
    assert_eq!(depart_du_voyage_exec(&voyage("ete"), &services), Some(Ok(1717416000)));
    assert_eq!(depart_du_voyage_exec(&voyage("printemps"), &services), Some(Ok(1710072000)));
    assert_eq!(depart_du_voyage_exec(&voyage("vide"), &services), None);
    assert_eq!(depart_du_voyage_exec(&voyage("inconnu"), &services), None);
}

#[test]
fn instant_le_plus_proche_dans_un_repli() {
    let repli = ResultatLocal::Ambigu(1730611800, 1730615400);
    assert_eq!(get_nearest_tz_from_local_result(&repli, 1730611800, 0), Some(1730611800));
    assert_eq!(get_nearest_tz_from_local_result(&repli, 1730615400, 0), Some(1730615400));
    // exactly half-way: the earlier reading
    assert_eq!(get_nearest_tz_from_local_result(&repli, 1730613600, 0), Some(1730611800));
    // one nanosecond later: the later reading
    assert_eq!(get_nearest_tz_from_local_result(&repli, 1730613600, 1), Some(1730615400));
    assert_eq!(get_nearest_tz_from_local_result(&ResultatLocal::Unique(7), 1730613600, 0), Some(7));
    assert_eq!(get_nearest_tz_from_local_result(&ResultatLocal::Aucun, 0, 0), None);
}

fn arret(depart: Option<u32>) -> Option<PremierArret> {
    Some(PremierArret { code: Some("1000".to_string()), depart })
}

#[test]
fn depart_depuis_midi_moins_douze_heures() {
    // 2024-06-03: noon EDT is 16:00 UTC; the trip leaves at 08:00 EDT.
    assert_eq!(heure_de_depart_selon_midi(&ResultatLocal::Unique(1717430400), &arret(Some(28800))), Ok(1717416000));
    // 2024-03-10 (clocks go forward): noon minus twelve hours is 23:00 EST the day before,
    // so a departure at "08:00:00" is 08:00 EDT.
    assert_eq!(heure_de_depart_selon_midi(&ResultatLocal::Unique(1710086400), &arret(Some(28800))), Ok(1710072000));
}

#[test]
fn depart_refuse() {
    assert_eq!(heure_de_depart_selon_midi(&ResultatLocal::Aucun, &arret(Some(0))), Err(ErreurFlux::MidiIntrouvable));
    assert_eq!(heure_de_depart_selon_midi(&ResultatLocal::Ambigu(1, 2), &arret(Some(0))), Err(ErreurFlux::MidiIntrouvable));
    assert_eq!(heure_de_depart_selon_midi(&ResultatLocal::Unique(1717430400), &None), Err(ErreurFlux::VoyageSansArret));
    assert_eq!(heure_de_depart_selon_midi(&ResultatLocal::Unique(1717430400), &arret(None)), Err(ErreurFlux::DepartInconnu));
    assert_eq!(heure_de_depart_selon_midi(&ResultatLocal::Unique(INSTANT_MIN + 43199), &arret(Some(0))), Err(ErreurFlux::InstantHorsLimites));
    assert_eq!(heure_de_depart_selon_midi(&ResultatLocal::Unique(INSTANT_MAX + 43200), &arret(Some(0))), Ok(INSTANT_MAX));
    assert_eq!(heure_de_depart_selon_midi(&ResultatLocal::Unique(INSTANT_MAX + 43200), &arret(Some(1))), Err(ErreurFlux::InstantHorsLimites));
}
