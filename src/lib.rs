//! A small bare-metal tic-tac-toe runtime: a tick clock, a keyboard event
//! queue, a text-mode display model and the board rules, each with a
//! verified contract.

pub mod game;
pub mod vga;
pub mod interrupts;
pub mod keyboard;
