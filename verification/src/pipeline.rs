//! Which input and which output a configuration entry selects.

use vstd::prelude::*;

verus! {

/// The inputs that can be started by name.
#[derive(Clone, Copy, PartialEq, Eq, Debug, Structural)]
pub enum InputChoice {
    Stdin,
    Random,
}

/// The outputs that can be started by name.
#[derive(Clone, Copy, PartialEq, Eq, Debug, Structural)]
pub enum OutputChoice {
    Stdout,
}

fn same_text(a: &str, b: &str) -> (res: bool)
    ensures
        res == (a@ == b@),
{
    a.to_owned() == b.to_owned()
}

/// The input that `name` selects: `stdin` or `random`; `None` for any other
/// name, which is not implemented.
pub fn select_input(name: &str) -> (res: Option<InputChoice>)
    ensures
        res == if name@ == "stdin"@ {
            Some(InputChoice::Stdin)
        } else if name@ == "random"@ {
            Some(InputChoice::Random)
        } else {
            None::<InputChoice>
        },
{
    if same_text(name, "stdin") {
        Some(InputChoice::Stdin)
    } else if same_text(name, "random") {
        Some(InputChoice::Random)
    } else {
        None
    }
}

/// The output that `name` selects: `stdout`; `None` for any other name,
/// which is not implemented.
pub fn select_output(name: &str) -> (res: Option<OutputChoice>)
    ensures
        res == if name@ == "stdout"@ {
            Some(OutputChoice::Stdout)
        } else {
            None::<OutputChoice>
        },
{
    if same_text(name, "stdout") {
        Some(OutputChoice::Stdout)
    } else {
        None
    }
}

} // verus!
