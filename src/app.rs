use vstd::prelude::*;
use vstd::string::StringExecFns;
use crate::display::term_text;
use crate::fibonacci::{fib, fib_spec, generate_sequence_iterative, lemma_fib_fits_small};
use crate::text::decimal_string;
use crate::validation::{validate_input, validate_spec, MAX_FIBONACCI_N};

verus! {

/// The state behind the interactive front end: the text typed, the message
/// shown, and the sequence computed for the last accepted index.
pub struct FibonacciApp {
    pub input_text: String,
    result_text: String,
    fibonacci_sequence: Vec<u64>,
    current_n: u32,
}

impl FibonacciApp {
    pub closed spec fn input_view(&self) -> Seq<char> {
        self.input_text@
    }

    pub closed spec fn result_view(&self) -> Seq<char> {
        self.result_text@
    }

    pub closed spec fn sequence_view(&self) -> Seq<u64> {
        self.fibonacci_sequence@
    }

    pub closed spec fn current_n_view(&self) -> u32 {
        self.current_n
    }

    /// There is a result to show: a non-empty sequence for an index above 0.
    pub open spec fn has_results_spec(&self) -> bool {
        self.sequence_view().len() > 0 && self.current_n_view() > 0
    }

    /// Returns an empty state.
    pub fn new() -> (r: FibonacciApp)
        ensures
            r.input_view() == Seq::<char>::empty(),
            r.result_view() == Seq::<char>::empty(),
            r.sequence_view() == Seq::<u64>::empty(),
            r.current_n_view() == 0,
    {
        FibonacciApp {
            input_text: String::new(),
            result_text: String::new(),
            fibonacci_sequence: Vec::new(),
            current_n: 0,
        }
    }

    /// Validates the typed text. On success shows `F(n) = value` and keeps
    /// F(0), ..., F(n); on failure shows the message and keeps no sequence.
    pub fn calculate_fibonacci(&mut self)
        ensures
            final(self).input_view() == old(self).input_view(),
            match validate_spec(old(self).input_view(), MAX_FIBONACCI_N as nat) {
                Ok(n) => {
                    &&& final(self).current_n_view() == n
                    &&& final(self).result_view() == term_text(n as nat, fib_spec(n as nat))
                    &&& final(self).sequence_view().len() == n + 1
                    &&& forall|i: int|
                        0 <= i <= n ==> final(self).sequence_view()[i] == fib_spec(i as nat)
                },
                Err(m) => {
                    &&& final(self).current_n_view() == 0
                    &&& final(self).result_view() == m
                    &&& final(self).sequence_view().len() == 0
                },
            },
    {
        match validate_input(self.input_text.as_str()) {
            Ok(n) => {
                proof {
                    lemma_fib_fits_small(n as nat);
                }
                let value = fib(n);
                let mut text = String::from_str("F(");
                text.append(decimal_string(n as u64).as_str());
                text.append(") = ");
                text.append(decimal_string(value).as_str());
                self.result_text = text;
                self.current_n = n;
                self.fibonacci_sequence = generate_sequence_iterative(n);
            },
            Err(message) => {
                self.result_text = message;
                self.fibonacci_sequence = Vec::new();
                self.current_n = 0;
            },
        }
    }

    /// Replaces the typed text; nothing else changes.
    pub fn set_input_text(&mut self, text: String)
        ensures
            final(self).input_view() == text@,
            final(self).result_view() == old(self).result_view(),
            final(self).sequence_view() == old(self).sequence_view(),
            final(self).current_n_view() == old(self).current_n_view(),
    {
        self.input_text = text;
    }

    /// Clears the typed text, the message and the sequence.
    pub fn reset(&mut self)
        ensures
            final(self).input_view() == Seq::<char>::empty(),
            final(self).result_view() == Seq::<char>::empty(),
            final(self).sequence_view() == Seq::<u64>::empty(),
            final(self).current_n_view() == 0,
    {
        self.input_text = String::new();
        self.result_text = String::new();
        self.fibonacci_sequence = Vec::new();
        self.current_n = 0;
    }

    /// Returns the sequence computed last.
    pub fn get_sequence(&self) -> (r: &[u64])
        ensures
            r@ == self.sequence_view(),
    {
        self.fibonacci_sequence.as_slice()
    }

    /// Returns the index accepted last, or 0.
    pub fn get_current_n(&self) -> (r: u32)
        ensures
            r == self.current_n_view(),
    {
        self.current_n
    }

    /// Returns the message to show.
    pub fn get_result_text(&self) -> (r: &str)
        ensures
            r@ == self.result_view(),
    {
        self.result_text.as_str()
    }

    /// Returns whether there is a result to show.
    pub fn has_results(&self) -> (r: bool)
        ensures
            r == self.has_results_spec(),
    {
        self.fibonacci_sequence.len() > 0 && self.current_n > 0
    }
}

/// What the application says of itself.
pub struct AppInfo {
    pub name: &'static str,
    pub version: &'static str,
    pub author: &'static str,
    pub description: &'static str,
}

impl Default for AppInfo {
    fn default() -> (r: AppInfo)
        ensures
            r.name@ == "Fibonacci Spiral Generator"@,
            r.version@ == "0.1.0"@,
            r.author@ == "Fibonacci Enthusiast"@,
            r.description@ == "A beautiful visualization of the Fibonacci sequence and golden spiral"@,
    {
        AppInfo {
            name: "Fibonacci Spiral Generator",
            version: "0.1.0",
            author: "Fibonacci Enthusiast",
            description: "A beautiful visualization of the Fibonacci sequence and golden spiral",
        }
    }
}

} // verus!
