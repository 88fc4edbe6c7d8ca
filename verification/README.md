# krun_devices

Verified pieces of a small virtual machine monitor:

- `gicv2`: a GICv2 interrupt controller, with the vCPUs' interrupt queues in `vcpu`;
- `fwcfg`: the fw_cfg device that hands files to the firmware;
- `acpi`: ACPI tables for aarch64 guests and the loader script that installs them;
- `pvh`: the boot information and memory map of a PVH guest;
- `terminal`: the attributes of a terminal that serves as a guest's console.

Each module states what it does over a mathematical model, and what a guest can rely on as proof
functions whose names start with `law_`. `app/` holds what touches the host: the terminal itself
and the lock around the interrupt controller.
