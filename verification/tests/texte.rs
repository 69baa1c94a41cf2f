use chrono::Datelike;
use rtc_quebec_gtfs_rt::calendrier::{lire_date_heure, DateCivile, ANNEE_MAX, ANNEE_MIN, INSTANT_MAX, INSTANT_MIN};
use rtc_quebec_gtfs_rt::texte::{caracteres, contient_texte, decouper, entier_en_texte, lire_i32, lire_u32};

fn plage(s: &str) -> (Vec<char>, usize) {
    let c = caracteres(s);
    let n = c.len();
    (c, n)
}

#[test]
fn entier_en_texte_comme_display() {
    assert_eq!(entier_en_texte(0), "0");
    assert_eq!(entier_en_texte(1501), "1501");
    assert_eq!(entier_en_texte(-42), "-42");
    assert_eq!(entier_en_texte(i64::MIN), i64::MIN.to_string());
    assert_eq!(entier_en_texte(i64::MAX), i64::MAX.to_string());
}

#[test]
fn caracteres_d_un_texte() {
    assert_eq!(caracteres("Québec"), vec!['Q', 'u', 'é', 'b', 'e', 'c']);
    assert_eq!(caracteres(""), Vec::<char>::new());
}

#[test]
fn lecture_des_entiers_comme_parse() {
    for s in ["0", "42", "+7", "007", "4294967295", "4294967296", "-1", "", "+", "-", "1a", " 1"] {
        let (c, n) = plage(s);
        assert_eq!(lire_u32(&c, 0, n), s.parse::<u32>().ok(), "u32 {:?}", s);
    }
    for s in ["0", "-0", "-2147483648", "2147483647", "2147483648", "-2147483649", "+12", "--1", "-", "x"] {
        let (c, n) = plage(s);
        assert_eq!(lire_i32(&c, 0, n), s.parse::<i32>().ok(), "i32 {:?}", s);
    }
}

#[test]
fn decoupe_comme_split() {
    for s in ["", "a", "a-b", "-a-", "2024-01-02", "--"] {
        let (c, n) = plage(s);
        let morceaux: Vec<String> =
            decouper(&c, 0, n, '-').iter().map(|&(a, b)| c[a..b].iter().collect()).collect();
        let attendus: Vec<String> = s.split('-').map(|x| x.to_string()).collect();
        assert_eq!(morceaux, attendus, "{:?}", s);
    }
}

#[test]
fn recherche_de_motif() {
    let motif = caracteres("multint");
    assert!(contient_texte(&caracteres("A24multint1"), &motif));
    assert!(contient_texte(&caracteres("multint"), &motif));
    assert!(!contient_texte(&caracteres("multin"), &motif));
    assert!(!contient_texte(&caracteres("A24mult-int"), &motif));
    assert!(contient_texte(&caracteres("abc"), &caracteres("")));
}

#[test]
fn dates_et_heures_de_mise_a_jour() {
    assert_eq!(lire_date_heure("2024-06-03T08:20:05"), Some((2024, 6, 3, 8, 20, 5)));
    assert_eq!(lire_date_heure("2024-1-5T7:8:9"), Some((2024, 1, 5, 7, 8, 9)));
    assert_eq!(lire_date_heure("2024-01-02-99T10:11:12:13T5"), Some((2024, 1, 2, 10, 11, 12)));
    assert_eq!(lire_date_heure("2024-02-29T00:00:00"), Some((2024, 2, 29, 0, 0, 0)));
    assert_eq!(lire_date_heure("2023-02-29T00:00:00"), None);
    assert_eq!(lire_date_heure("2024-04-31T00:00:00"), None);
    assert_eq!(lire_date_heure("2024-01-02T24:00:00"), None);
    assert_eq!(lire_date_heure("2024-01-02T10:60:00"), None);
    assert_eq!(lire_date_heure("2024-01-02 10:00:00"), None);
    assert_eq!(lire_date_heure("2024-01T10:00:00"), None);
    assert_eq!(lire_date_heure("2024-01-02T10:00"), None);
    assert_eq!(lire_date_heure("hier"), None);
    // A leading minus sign empties the first piece of the date.
    assert_eq!(lire_date_heure("-4-02-29T00:00:00"), None);
    assert_eq!(lire_date_heure("+2024-06-03T08:20:05"), Some((2024, 6, 3, 8, 20, 5)));
}

#[test]
fn dates_civiles_comme_chrono() {
    for (a, m, j) in [(2024, 2, 29), (2023, 2, 29), (1900, 2, 29), (2000, 2, 29), (-4, 2, 29), (2024, 13, 1), (2024, 0, 1), (2024, 1, 0), (262142, 12, 31), (262143, 1, 1), (-262143, 1, 1), (-262144, 12, 31)] {
        let attendu = chrono::NaiveDate::from_ymd_opt(a, m, j).is_some();
        assert_eq!(DateCivile::new(a, m, j).is_some(), attendu, "{} {} {}", a, m, j);
    }
    assert_eq!(DateCivile::new(2024, 6, 3).unwrap().valeur(), (2024, 6, 3));
}

#[test]
fn bornes_de_chrono() {
    assert_eq!(chrono::NaiveDate::MIN.year(), ANNEE_MIN);
    assert_eq!(chrono::NaiveDate::MAX.year(), ANNEE_MAX);
    assert_eq!(chrono::NaiveDate::MIN.and_hms_opt(0, 0, 0).unwrap().and_utc().timestamp(), INSTANT_MIN);
    assert_eq!(chrono::NaiveDate::MAX.and_hms_opt(23, 59, 59).unwrap().and_utc().timestamp(), INSTANT_MAX);
}
