//! Devices, firmware tables and boot information of a small virtual machine monitor.

pub mod acpi;
pub mod bits;
pub mod bytes;
pub mod fwcfg;
pub mod gicv2;
pub mod layout;
pub mod pvh;
pub mod terminal;
pub mod vcpu;
