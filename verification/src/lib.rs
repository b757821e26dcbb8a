//! Card catalogs, decklist sources, collection files and print options for
//! proxy printing of living card games.

pub mod border_generator;
pub mod catalog;
pub mod collection_manager;
pub mod csv_parser;
pub mod db_storage;
pub mod games;
pub mod models;
pub mod netrunnerdb;
pub mod pdf;
pub mod text;
