//! The command lines of the harness.

use defmt_persist::harness::qemu::{
    cargo_arguments, profile, push_hex, qemu_arguments, MemoryLoad, PERSIST_ADDR,
};

#[test]
fn emulator_without_a_memory_load() {
    assert_eq!(
        qemu_arguments("/tmp/u0", "/tmp/u1", None),
        [
            "-cpu",
            "cortex-m3",
            "-machine",
            "lm3s6965evb",
            "-nographic",
            "-monitor",
            "none",
            "-semihosting-config",
            "enable=on,target=native",
            "-serial",
            "file:/tmp/u0",
            "-serial",
            "file:/tmp/u1",
        ]
    );
}

#[test]
fn emulator_with_the_region_dump_loaded() {
    assert_eq!(PERSIST_ADDR, 0x2000_FC00);
    let load = MemoryLoad {
        file: "/tmp/snap shot",
        addr: PERSIST_ADDR,
    };
    assert_eq!(load.loader_argument(), "loader,file=/tmp/snap shot,addr=0x2000fc00,force-raw=on");
    let arguments = qemu_arguments("a", "b", Some(load));
    assert_eq!(arguments.len(), 15);
    assert_eq!(arguments[10], "file:a");
    assert_eq!(arguments[12], "file:b");
    assert_eq!(
        &arguments[13..],
        ["-device", "loader,file=/tmp/snap shot,addr=0x2000fc00,force-raw=on"]
    );
}

#[test]
fn loader_address_as_the_formatter_writes_it() {
    for addr in [0u32, 1, 9, 10, 15, 16, 255, 256, 0x2000_FC00, 0xDEAD_BEEF, u32::MAX] {
        let load = MemoryLoad { file: "f", addr };
        assert_eq!(
            load.loader_argument(),
            format!("loader,file={},addr={:#x},force-raw=on", "f", addr)
        );
        let mut text = String::new();
        push_hex(&mut text, addr);
        assert_eq!(text, format!("{:x}", addr));
    }
}

#[test]
fn build_command() {
    assert_eq!(
        cargo_arguments("basic", false),
        ["build", "--example", "basic", "--target", "thumbv7m-none-eabi"]
    );
    assert_eq!(
        cargo_arguments("persist_test", true),
        [
            "build",
            "--example",
            "persist_test",
            "--target",
            "thumbv7m-none-eabi",
            "--release"
        ]
    );
    assert_eq!(profile(false), "debug");
    assert_eq!(profile(true), "release");
}
