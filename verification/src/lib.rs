pub mod text;
pub mod order;
pub mod lyrics;
pub mod ui;
pub mod artist;
pub mod artists_page;
