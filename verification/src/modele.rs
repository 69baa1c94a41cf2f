//! The data of the RTC API, of the static GTFS feed and of the real-time feed,
//! as the library reads and writes them.
use vstd::prelude::*;
use crate::calendrier::DateCivile;

verus! {

/// A route of the RTC network with the codes of its two directions.
#[derive(Clone, Debug)]
pub struct Parcour {
    pub no_parcours: String,
    pub code_direction_principale: String,
    pub code_direction_retour: String,
}

/// A bus on a route, as the RTC API reports it (the coordinates stay with
/// the caller).
#[derive(Clone, Debug)]
pub struct PositionDeBus {
    pub id_autobus: i64,
    pub id_voyage: String,
    pub date_mise_jour: String,
}

/// A stop of an RTC schedule (the coordinates stay with the caller).
#[derive(Clone, Debug)]
pub struct ArretDansPointTemporel {
    pub no_arret: String,
    pub nom: String,
    pub description: String,
    pub accessible: bool,
}

/// A scheduled passage of a bus at a stop.
#[derive(Clone, Debug)]
pub struct PointTemporelDansVoyage {
    pub horaire: String,
    pub horaire_minutes: i64,
    pub ntr: bool,
    pub arret: ArretDansPointTemporel,
}

/// The first stop time of a GTFS trip: the code of its stop and its departure
/// time in seconds after the reference midnight of the service day.
#[derive(Clone, Debug)]
pub struct PremierArret {
    pub code: Option<String>,
    pub depart: Option<u32>,
}

/// A GTFS trip: its identifier, route, service and first stop time (`None`
/// when the trip has no stop time).
#[derive(Clone, Debug)]
pub struct Voyage {
    pub id: String,
    pub route_id: String,
    pub service_id: String,
    pub premier_arret: Option<PremierArret>,
}

/// A GTFS service with the first date of its calendar dates (`None` when the
/// service has none).
#[derive(Clone, Debug)]
pub struct Service {
    pub service_id: String,
    pub premiere_date: Option<DateCivile>,
}

/// The buses that the RTC API reported for one route and direction.
#[derive(Clone, Debug)]
pub struct ReponsePositions {
    pub parcours: String,
    pub direction: String,
    pub positions: Vec<PositionDeBus>,
}

/// The GTFS trip that a vehicle serves.
#[derive(Clone, Debug)]
pub struct DescripteurVoyage {
    pub trip_id: String,
    pub route_id: String,
}

/// A vehicle entity of the feed.  `reponse` and `position` say which bus of
/// which route response it describes, so that the caller can add its
/// coordinates; `horodatage` is the UNIX time of its last update.
#[derive(Clone, Debug)]
pub struct EntiteVehicule {
    pub id: String,
    pub voyage: Option<DescripteurVoyage>,
    pub vehicule: String,
    pub reponse: usize,
    pub position: usize,
    pub horodatage: u64,
}

/// The content of a vehicle entity.
pub struct EntiteVue {
    pub id: Seq<char>,
    pub voyage: Option<(Seq<char>, Seq<char>)>,
    pub vehicule: Seq<char>,
    pub reponse: int,
    pub position: int,
    pub horodatage: u64,
}

impl View for EntiteVehicule {
    type V = EntiteVue;

    open spec fn view(&self) -> EntiteVue {
        EntiteVue {
            id: self.id@,
            voyage: match self.voyage {
                Some(d) => Some((d.trip_id@, d.route_id@)),
                None => None,
            },
            vehicule: self.vehicule@,
            reponse: self.reponse as int,
            position: self.position as int,
            horodatage: self.horodatage,
        }
    }
}

/// A GTFS Realtime feed of vehicle positions: its header (version and UNIX
/// time) and its entities.
#[derive(Clone, Debug)]
pub struct FluxVehicules {
    pub version: String,
    pub horodatage: u64,
    pub entites: Vec<EntiteVehicule>,
}

/// The feeds that the conversion produces.
#[derive(Clone, Debug)]
pub struct ResponseGtfsRt {
    pub vehicles: Option<FluxVehicules>,
    pub voyages: Option<FluxVehicules>,
    pub alertes: Option<FluxVehicules>,
}

/// Why the conversion stops: each is a case where the feed cannot be built.
#[derive(PartialEq, Eq, Structural, Debug, Clone, Copy)]
pub enum ErreurFlux {
    /// Noon of a service day is not one single instant in Montréal.
    MidiIntrouvable,
    /// A computed instant falls outside chrono's range.
    InstantHorsLimites,
    /// A trip has no stop time.
    VoyageSansArret,
    /// The first stop time of a trip has no departure time.
    DepartInconnu,
    /// The first stop of a trip has no code.
    CodeArretInconnu,
    /// A scheduled time of the RTC is not an RFC 3339 timestamp.
    HoraireIllisible,
    /// The update time of a bus is not a valid `YYYY-MM-DDThh:mm:ss` time.
    DateIllisible,
    /// The update time of a bus does not exist in Montréal (a clock change gap).
    HeureLocaleInexistante,
}

} // verus!
