//! The sections of the configuration.
//!
//! The device configuration and the module configuration reach the phone one
//! section per frame. A section is held by its field number and its wire form.

use crate::held::{self, hold};
use crate::message::{self, inner_room, FieldWriter, Message, RoundTrip};
use crate::shape::{self, module_section_of, section_of, Shape};
use crate::wire::{Field, FieldView, WireValueOf, MAX_TAG};
use vstd::prelude::*;

verus! {

/// One section: its field number and its wire form.
#[verifier::ext_equal]
#[derive(Debug, PartialEq)]
pub struct SectionOf<B> {
    pub number: u32,
    pub body: B,
}

/// A section of a configuration.
pub type Section = SectionOf<Vec<u8>>;

/// The model of a [`Section`].
pub type SectionView = SectionOf<Seq<u8>>;

impl View for SectionOf<Vec<u8>> {
    type V = SectionView;

    open spec fn view(&self) -> SectionView {
        SectionOf { number: self.number, body: self.body@ }
    }
}

impl Clone for SectionOf<Vec<u8>> {
    fn clone(&self) -> (r: Self)
        ensures
            r@ == self@,
    {
        SectionOf { number: self.number, body: self.body.clone() }
    }
}

/// The shape of a section of a configuration.
pub open spec fn section_shape(modules: bool, number: u32) -> Option<Shape> {
    if modules {
        shape::module_section(number)
    } else {
        shape::section(number)
    }
}

/// A frame with at most one section of a configuration, of that of the modules
/// where `MODULES` says so.
#[verifier::ext_equal]
#[derive(Debug, PartialEq)]
pub struct ConfigOf<B, const MODULES: bool> {
    pub payload_variant: Option<SectionOf<B>>,
}

/// A section of the device configuration.
pub type Config = ConfigOf<Vec<u8>, false>;

/// A section of the module configuration.
pub type ModuleConfig = ConfigOf<Vec<u8>, true>;

/// The model of a frame with a section.
pub type ConfigView<const MODULES: bool> = ConfigOf<Seq<u8>, MODULES>;

impl<const MODULES: bool> View for ConfigOf<Vec<u8>, MODULES> {
    type V = ConfigView<MODULES>;

    open spec fn view(&self) -> ConfigView<MODULES> {
        ConfigOf { payload_variant: message::opt_view(self.payload_variant) }
    }
}

impl<const MODULES: bool> Clone for ConfigOf<Vec<u8>, MODULES> {
    fn clone(&self) -> (r: Self)
        ensures
            r@ == self@,
    {
        ConfigOf {
            payload_variant: match &self.payload_variant {
                Some(x) => Some(x.clone()),
                None => None,
            },
        }
    }
}

impl<const MODULES: bool> Default for ConfigOf<Vec<u8>, MODULES> {
    fn default() -> (r: Self)
        ensures
            r@ == Self::blank(),
    {
        Self::new_blank()
    }
}

impl<const MODULES: bool> Message for ConfigOf<Vec<u8>, MODULES> {
    open spec fn blank() -> ConfigView<MODULES> {
        ConfigOf { payload_variant: None }
    }

    open spec fn merged(m: ConfigView<MODULES>, f: FieldView, room: nat) -> Option<
        ConfigView<MODULES>,
    > {
        match (section_shape(MODULES, f.tag), f.value) {
            (Some(shape), WireValueOf::Bytes(b)) => {
                let old = match m.payload_variant {
                    Some(s) if s.number == f.tag => s.body,
                    _ => Seq::empty(),
                };
                match held::held(shape, old, b, message::inner(room)) {
                    Some(body) => Some(
                        ConfigOf { payload_variant: Some(SectionOf { number: f.tag, body }) },
                    ),
                    None => None,
                }
            },
            (Some(_), _) => None,
            (None, _) => Some(m),
        }
    }

    open spec fn fields(m: ConfigView<MODULES>) -> Seq<FieldView> {
        match m.payload_variant {
            Some(s) if s.number <= MAX_TAG => Seq::empty().push(
                message::bytes_field(s.number, s.body),
            ),
            _ => Seq::empty(),
        }
    }

    fn new_blank() -> (m: Self) {
        ConfigOf { payload_variant: None }
    }

    fn merge_field(&mut self, f: Field, room: u32) -> (ok: bool) {
        let shape = if MODULES {
            module_section_of(f.tag)
        } else {
            section_of(f.tag)
        };
        match (shape, f.value) {
            (Some(shape), WireValueOf::Bytes(b)) => {
                let mut body = Vec::new();
                if let Some(s) = self.payload_variant.take() {
                    if s.number == f.tag {
                        body = s.body;
                    }
                }
                match hold(shape, &body, &b, inner_room(room)) {
                    Some(body) => self.payload_variant = Some(SectionOf { number: f.tag, body }),
                    None => return false,
                }
            },
            (Some(_), _) => return false,
            (None, _) => {},
        }
        true
    }

    fn encode_to_vec(&self) -> (bytes: Vec<u8>) {
        let mut w = FieldWriter::new();
        if let Some(s) = &self.payload_variant {
            if s.number <= MAX_TAG {
                w.put_bytes(s.number, &s.body);
            }
        }
        w.finish()
    }
}

impl<const MODULES: bool> RoundTrip for ConfigOf<Vec<u8>, MODULES> {
    open spec fn canonical(m: ConfigView<MODULES>) -> bool {
        m.payload_variant matches Some(s) ==> {
            &&& 1 <= s.number <= MAX_TAG
            &&& section_shape(MODULES, s.number) matches Some(shape)
            &&& held::is_held(shape, s.body)
        }
    }

    open spec fn settled(m: ConfigView<MODULES>) -> ConfigView<MODULES> {
        m
    }

    proof fn lemma_fields(m: ConfigView<MODULES>) {
        message::lemma_reads_start::<Self>();
        if let Some(s) = m.payload_variant {
            message::lemma_reads_push::<Self>(
                Seq::empty(),
                Self::blank(),
                message::bytes_field(s.number, s.body),
                m,
            );
        }
    }

    proof fn lemma_settled(m: ConfigView<MODULES>) {
    }

    proof fn lemma_blank() {
    }

    proof fn lemma_merged(m: ConfigView<MODULES>, f: FieldView, room: nat) {
        if let (Some(shape), WireValueOf::Bytes(b)) = (section_shape(MODULES, f.tag), f.value) {
            let old = match m.payload_variant {
                Some(s) if s.number == f.tag => s.body,
                _ => Seq::empty(),
            };
            held::lemma_held(shape, old, b, message::inner(room));
        }
    }
}

} // verus!
