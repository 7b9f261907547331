pub mod chests;
pub mod damage;
pub mod inventory;
pub mod loot;
pub mod player;
pub mod structures;
