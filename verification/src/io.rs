//! Text output devices: the VGA text-mode console model.  The byte sinks
//! themselves (serial port, the memory-mapped VGA buffer) belong to the
//! embedding program; this module holds what is decided about the bytes.

pub mod vga_buffer;
