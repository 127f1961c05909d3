//! Rules and algorithms of Bloody Battle (Sichuan) mahjong.
pub mod ding_que;
pub mod mjai;
pub mod tile;
pub mod point;
pub mod rankings;
pub mod shanten;
pub mod division;
pub mod complete;
pub mod agari;
pub mod hand;
pub mod consts;
pub mod result;
pub mod tsumogiri;
pub mod grp;
pub mod env_core;
pub mod board;
pub mod settle;
pub mod sp;
pub mod game_score;
pub mod state;
