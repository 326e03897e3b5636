pub mod gui;
