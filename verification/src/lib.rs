//! The logic of an offline manga library and reader: naming and numbering of
//! chapters, natural ordering, scanning of folders and archives, the library
//! index, and the state machines of the application and its statistics page.
pub mod anypath;
pub mod app;
pub mod bignat;
pub mod chapters;
pub mod cli;
pub mod components;
pub mod counting;
pub mod digits;
pub mod disk;
pub mod double;
pub mod error;
pub mod filters;
pub mod formats;
pub mod index;
pub mod input;
pub mod keys;
pub mod layouts;
pub mod mangas;
pub mod model;
pub mod naming;
pub mod natural;
pub mod numbering;
pub mod operating;
pub mod order;
pub mod outside;
pub mod path;
pub mod places;
pub mod placing;
pub mod provider;
pub mod ranking;
pub mod reading;
pub mod responses;
pub mod scan;
pub mod scanning;
pub mod showing;
pub mod size;
pub mod stats;
pub mod text;
pub mod textmap;
