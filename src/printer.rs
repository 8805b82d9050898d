//! An example backend: a printer that answers every print request with a
//! message that depends on its variant.
use vstd::prelude::*;

use crate::resource_filter::Describable;

verus! {

/// What kind of printer this is.
#[derive(Debug, PartialEq, Eq, Clone, Copy, Structural)]
pub enum PrinterVariant {
    Color,
    BlackAndWhite,
}

/// A request to a printer.
#[derive(Debug, Clone, Copy)]
pub enum Action {
    Print,
}

/// A printer's answer.
#[derive(Debug)]
pub enum Response {
    Print(String),
}

/// The message each variant prints.
pub open spec fn print_message(variant: PrinterVariant) -> Seq<char> {
    match variant {
        PrinterVariant::Color => "Printing in color!"@,
        PrinterVariant::BlackAndWhite => "No colors!"@,
    }
}

/// A printer backend.
#[derive(Debug)]
pub struct Printer {
    pub variant: PrinterVariant,
}

impl Printer {
    /// A printer of the given variant.
    pub fn new(variant: PrinterVariant) -> (r: Self)
        ensures
            r.variant == variant,
    {
        Self { variant }
    }

    /// The answer to `request`.
    pub fn respond(&self, request: Action) -> (r: Response)
        ensures
            r->Print_0@ == print_message(self.variant),
    {
        match self.variant {
            PrinterVariant::Color => Response::Print("Printing in color!".to_owned()),
            PrinterVariant::BlackAndWhite => Response::Print("No colors!".to_owned()),
        }
    }
}

impl Describable<PrinterVariant> for Printer {
    fn describe(&self) -> PrinterVariant {
        self.variant
    }
}

} // verus!
