//! Start-up configuration decided from command-line arguments, handed to the
//! library as plain byte strings.

use vstd::prelude::*;

verus! {

/// The bytes of the option flag `--update`.
pub open spec fn spec_update_flag() -> Seq<u8> {
    seq![0x2du8, 0x2d, 0x75, 0x70, 0x64, 0x61, 0x74, 0x65]
}

/// The bytes of the literal `true`.
pub open spec fn spec_true_arg() -> Seq<u8> {
    seq![0x74u8, 0x72, 0x75, 0x65]
}

/// The bytes of the literal `false`.
pub open spec fn spec_false_arg() -> Seq<u8> {
    seq![0x66u8, 0x61, 0x6c, 0x73, 0x65]
}

#[derive(Debug, Clone, Copy, PartialEq, Eq, Structural)]
pub struct Config {
    pub check_update: bool,
}

fn arg_eq(a: &Vec<u8>, ghost_expected: Ghost<Seq<u8>>, expected: &Vec<u8>) -> (r: bool)
    requires
        expected@ == ghost_expected@,
    ensures
        r == (a@ == ghost_expected@),
{
    if a.len() != expected.len() {
        return false;
    }
    let mut i: usize = 0;
    while i < a.len()
        invariant
            a@.len() == expected@.len(),
            i <= a@.len(),
            expected@ == ghost_expected@,
            forall|j: int| 0 <= j < i ==> a@[j] == expected@[j],
        decreases a@.len() - i,
    {
        if a[i] != expected[i] {
            return false;
        }
        i = i + 1;
    }
    proof {
        assert(a@ =~= expected@);
    }
    true
}

fn update_flag_bytes() -> (r: Vec<u8>)
    ensures
        r@ == spec_update_flag(),
{
    let mut v: Vec<u8> = Vec::new();
    v.push(0x2d);
    v.push(0x2d);
    v.push(0x75);
    v.push(0x70);
    v.push(0x64);
    v.push(0x61);
    v.push(0x74);
    v.push(0x65);
    proof {
        assert(v@ =~= spec_update_flag());
    }
    v
}

fn true_bytes() -> (r: Vec<u8>)
    ensures
        r@ == spec_true_arg(),
{
    let mut v: Vec<u8> = Vec::new();
    v.push(0x74);
    v.push(0x72);
    v.push(0x75);
    v.push(0x65);
    proof {
        assert(v@ =~= spec_true_arg());
    }
    v
}

fn false_bytes() -> (r: Vec<u8>)
    ensures
        r@ == spec_false_arg(),
{
    let mut v: Vec<u8> = Vec::new();
    v.push(0x66);
    v.push(0x61);
    v.push(0x6c);
    v.push(0x73);
    v.push(0x65);
    proof {
        assert(v@ =~= spec_false_arg());
    }
    v
}

/// The configuration an argument list selects: updating stays on unless the
/// list carries the update flag followed by an explicit `true` or `false`;
/// anything else falls back to the default.
pub open spec fn spec_config_of(args: Seq<Seq<u8>>) -> Config {
    if args.len() >= 3 && args[1] == spec_update_flag() {
        if args[2] == spec_true_arg() {
            Config { check_update: true }
        } else if args[2] == spec_false_arg() {
            Config { check_update: false }
        } else {
            Config { check_update: true }
        }
    } else {
        Config { check_update: true }
    }
}

impl Config {
    /// Decide the configuration from the argument list (the first entry is
    /// the program name, as the host passes it through).
    pub fn parse_args(args: &Vec<Vec<u8>>) -> (r: Config)
        ensures
            r == spec_config_of(args@.map_values(|a: Vec<u8>| a@)),
    {
        let ghost view_args = args@.map_values(|a: Vec<u8>| a@);
        if args.len() < 3 {
            return Config { check_update: true };
        }
        let flag = update_flag_bytes();
        if !arg_eq(&args[1], Ghost(spec_update_flag()), &flag) {
            return Config { check_update: true };
        }
        let t = true_bytes();
        if arg_eq(&args[2], Ghost(spec_true_arg()), &t) {
            return Config { check_update: true };
        }
        let f = false_bytes();
        if arg_eq(&args[2], Ghost(spec_false_arg()), &f) {
            return Config { check_update: false };
        }
        Config { check_update: true }
    }
}

} // verus!
