pub mod b50;
pub mod cloud;
pub mod eamuse;
pub mod jacket;
pub mod models;
pub mod music_db;
pub mod paths;
pub mod rc4;
pub mod savedata;
pub mod settings;
pub mod text;
pub mod upload;
pub mod volforce;
pub mod xml;
