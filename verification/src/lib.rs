//! Conversion of the RTC Québec real-time API into a GTFS Realtime vehicle feed.
//!
//! The library holds everything that decides or computes: the text rules of the
//! RTC API (dates, identifiers, URLs), the index of GTFS trips by route, the
//! choice of the GTFS trip that best matches a bus, and the assembly of the
//! vehicle entities of the feed.  Network access, JSON decoding and protobuf
//! encoding are left to the caller.

pub mod association;
pub mod texte;
pub mod calendrier;
pub mod fuseau;
pub mod modele;
pub mod index;
pub mod depart;
pub mod appariement;
pub mod flux;
pub mod requetes;


