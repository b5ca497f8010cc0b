//! The command lines that the harness runs.
//!
//! The emulator is started with the two serial ports of the board redirected
//! to files and, for the second run of an example, with the dump of the
//! persist region loaded at the address of the region. The examples are built
//! for the target of the board.

use vstd::prelude::*;
use vstd::string::StringExecFns;

verus! {

/// The address of the persist region in the memory of the board.
pub const PERSIST_ADDR: u32 = 0x2000_FC00;

/// Data to load into the memory of the emulator before the run.
pub struct MemoryLoad<'a> {
    /// The file that holds the data.
    pub file: &'a str,
    /// The address that the data is loaded at.
    pub addr: u32,
}

/// The hexadecimal digit that stands for a number below sixteen.
pub open spec fn hex_digit(value: nat) -> char {
    if value == 0 {
        '0'
    } else if value == 1 {
        '1'
    } else if value == 2 {
        '2'
    } else if value == 3 {
        '3'
    } else if value == 4 {
        '4'
    } else if value == 5 {
        '5'
    } else if value == 6 {
        '6'
    } else if value == 7 {
        '7'
    } else if value == 8 {
        '8'
    } else if value == 9 {
        '9'
    } else if value == 10 {
        'a'
    } else if value == 11 {
        'b'
    } else if value == 12 {
        'c'
    } else if value == 13 {
        'd'
    } else if value == 14 {
        'e'
    } else {
        'f'
    }
}

/// A number written in hexadecimal, in lower case and without leading
/// zeros.
pub open spec fn hex(value: nat) -> Seq<char>
    decreases value,
{
    if value < 16 {
        seq![hex_digit(value)]
    } else {
        hex(value / 16).push(hex_digit(value % 16))
    }
}

/// The argument that makes the emulator load a file at an address.
pub open spec fn loader(file: Seq<char>, addr: nat) -> Seq<char> {
    "loader,file="@ + file + ",addr=0x"@ + hex(addr) + ",force-raw=on"@
}

/// The argument that redirects a serial port to a file.
pub open spec fn serial_file(path: Seq<char>) -> Seq<char> {
    "file:"@ + path
}

/// The arguments of the emulator up to the kernel: the board, no display
/// and no monitor, semihosting to the host, the serial ports to the two
/// files, and the loader where a memory load is asked for.
pub open spec fn emulator_arguments(
    uart0: Seq<char>,
    uart1: Seq<char>,
    load: Option<(Seq<char>, nat)>,
) -> Seq<Seq<char>> {
    let fixed = seq![
        "-cpu"@,
        "cortex-m3"@,
        "-machine"@,
        "lm3s6965evb"@,
        "-nographic"@,
        "-monitor"@,
        "none"@,
        "-semihosting-config"@,
        "enable=on,target=native"@,
        "-serial"@,
        serial_file(uart0),
        "-serial"@,
        serial_file(uart1),
    ];
    match load {
        Some((file, addr)) => fixed + seq!["-device"@, loader(file, addr)],
        None => fixed,
    }
}

/// The arguments that build an example for the board.
pub open spec fn build_arguments(example: Seq<char>, release: bool) -> Seq<Seq<char>> {
    let debug = seq!["build"@, "--example"@, example, "--target"@, "thumbv7m-none-eabi"@];
    if release {
        debug + seq!["--release"@]
    } else {
        debug
    }
}

/// The views of a list of strings.
pub open spec fn views(list: Seq<String>) -> Seq<Seq<char>> {
    Seq::new(list.len(), |i: int| list[i]@)
}

/// The hexadecimal digit for a number below sixteen, as a string.
fn hex_digit_text(value: u32) -> (text: &'static str)
    requires
        value < 16,
    ensures
        text@ == seq![hex_digit(value as nat)],
{
    proof {
        reveal_strlit("0");
        reveal_strlit("1");
        reveal_strlit("2");
        reveal_strlit("3");
        reveal_strlit("4");
        reveal_strlit("5");
        reveal_strlit("6");
        reveal_strlit("7");
        reveal_strlit("8");
        reveal_strlit("9");
        reveal_strlit("a");
        reveal_strlit("b");
        reveal_strlit("c");
        reveal_strlit("d");
        reveal_strlit("e");
        reveal_strlit("f");
    }
    let text = if value == 0 {
        "0"
    } else if value == 1 {
        "1"
    } else if value == 2 {
        "2"
    } else if value == 3 {
        "3"
    } else if value == 4 {
        "4"
    } else if value == 5 {
        "5"
    } else if value == 6 {
        "6"
    } else if value == 7 {
        "7"
    } else if value == 8 {
        "8"
    } else if value == 9 {
        "9"
    } else if value == 10 {
        "a"
    } else if value == 11 {
        "b"
    } else if value == 12 {
        "c"
    } else if value == 13 {
        "d"
    } else if value == 14 {
        "e"
    } else {
        "f"
    };
    proof {
        assert(text@ =~= seq![hex_digit(value as nat)]);
    }
    text
}

/// Appends a number in hexadecimal to a text.
pub fn push_hex(text: &mut String, value: u32)
    ensures
        final(text)@ == old(text)@ + hex(value as nat),
    decreases value,
{
    if value >= 16 {
        push_hex(text, value / 16);
    }
    text.append(hex_digit_text(value % 16));
    proof {
        assert(final(text)@ =~= old(text)@ + hex(value as nat));
    }
}

impl<'a> MemoryLoad<'a> {
    /// The argument that makes the emulator perform this load.
    pub fn loader_argument(&self) -> (argument: String)
        ensures
            argument@ == loader(self.file@, self.addr as nat),
    {
        let mut argument = String::from_str("loader,file=");
        argument.append(self.file);
        argument.append(",addr=0x");
        push_hex(&mut argument, self.addr);
        argument.append(",force-raw=on");
        argument
    }
}

/// Appends a word to a list of arguments.
fn push_word(list: &mut Vec<String>, word: &str)
    ensures
        views(final(list)@) == views(old(list)@).push(word@),
{
    list.push(String::from_str(word));
    proof {
        assert(views(final(list)@) =~= views(old(list)@).push(word@));
    }
}

/// Appends a string to a list of arguments.
fn push_argument(list: &mut Vec<String>, argument: String)
    ensures
        views(final(list)@) == views(old(list)@).push(argument@),
{
    list.push(argument);
    proof {
        assert(views(final(list)@) =~= views(old(list)@).push(argument@));
    }
}

/// The arguments of the emulator up to the kernel. `uart0` and `uart1` name
/// the files that the serial ports are redirected to.
pub fn qemu_arguments(uart0: &str, uart1: &str, memory_load: Option<MemoryLoad>) -> (arguments:
    Vec<String>)
    ensures
        views(arguments@) == emulator_arguments(
            uart0@,
            uart1@,
            match memory_load {
                Some(load) => Some((load.file@, load.addr as nat)),
                None => None,
            },
        ),
{
    let mut arguments: Vec<String> = Vec::new();
    proof {
        assert(views(arguments@) =~= Seq::<Seq<char>>::empty());
    }
    push_word(&mut arguments, "-cpu");
    push_word(&mut arguments, "cortex-m3");
    push_word(&mut arguments, "-machine");
    push_word(&mut arguments, "lm3s6965evb");
    push_word(&mut arguments, "-nographic");
    push_word(&mut arguments, "-monitor");
    push_word(&mut arguments, "none");
    push_word(&mut arguments, "-semihosting-config");
    push_word(&mut arguments, "enable=on,target=native");
    push_word(&mut arguments, "-serial");
    let mut first = String::from_str("file:");
    first.append(uart0);
    push_argument(&mut arguments, first);
    push_word(&mut arguments, "-serial");
    let mut second = String::from_str("file:");
    second.append(uart1);
    push_argument(&mut arguments, second);
    let ghost fixed = views(arguments@);
    proof {
        assert(fixed =~= emulator_arguments(uart0@, uart1@, None));
    }
    match memory_load {
        Some(load) => {
            push_word(&mut arguments, "-device");
            push_argument(&mut arguments, load.loader_argument());
            proof {
                assert(views(arguments@) =~= fixed + seq![
                    "-device"@,
                    loader(load.file@, load.addr as nat),
                ]);
            }
        },
        None => {},
    }
    arguments
}

/// The arguments that build an example for the board.
pub fn cargo_arguments(example: &str, release: bool) -> (arguments: Vec<String>)
    ensures
        views(arguments@) == build_arguments(example@, release),
{
    let mut arguments: Vec<String> = Vec::new();
    proof {
        assert(views(arguments@) =~= Seq::<Seq<char>>::empty());
    }
    push_word(&mut arguments, "build");
    push_word(&mut arguments, "--example");
    push_word(&mut arguments, example);
    push_word(&mut arguments, "--target");
    push_word(&mut arguments, "thumbv7m-none-eabi");
    let ghost debug = views(arguments@);
    proof {
        assert(debug =~= build_arguments(example@, false));
    }
    if release {
        push_word(&mut arguments, "--release");
        proof {
            assert(views(arguments@) =~= debug + seq!["--release"@]);
        }
    }
    arguments
}

/// The directory of the build profile under the target directory.
pub fn profile(release: bool) -> (name: &'static str)
    ensures
        name@ == (if release {
            "release"@
        } else {
            "debug"@
        }),
{
    if release {
        "release"
    } else {
        "debug"
    }
}

} // verus!
