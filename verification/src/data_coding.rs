pub mod radio_head_4b6b;
