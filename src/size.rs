//! The two size types: one count of bytes each, told apart only by the
//! prefixes with which they are parsed from and shown as text.

use vstd::prelude::*;

use crate::error::Error;
use crate::format::{format_byte_size, format_spec, Flavor};
use crate::parse::{parse_byte_size, parse_spec};
use crate::units::{EB, EIB, GB, GIB, KB, KIB, MB, MIB, PB, PIB, TB, TIB};

verus! {

/// A count of bytes shown with decimal (1000-based) prefixes.
#[derive(Debug, Clone, Copy, PartialEq, Eq, PartialOrd, Ord, Hash, Default, Structural)]
pub struct ByteSizeSi(pub u64);

impl ByteSizeSi {
    /// `n` bytes.
    pub fn b(n: u64) -> (r: Self)
        ensures
            r.0 == n,
    {
        ByteSizeSi(n)
    }

    /// `n` kilobytes.
    pub fn kb(n: u64) -> (r: Self)
        requires
            n * KB <= u64::MAX,
        ensures
            r.0 == n * KB,
    {
        ByteSizeSi(n * KB)
    }

    /// `n` megabytes.
    pub fn mb(n: u64) -> (r: Self)
        requires
            n * MB <= u64::MAX,
        ensures
            r.0 == n * MB,
    {
        ByteSizeSi(n * MB)
    }

    /// `n` gigabytes.
    pub fn gb(n: u64) -> (r: Self)
        requires
            n * GB <= u64::MAX,
        ensures
            r.0 == n * GB,
    {
        ByteSizeSi(n * GB)
    }

    /// `n` terabytes.
    pub fn tb(n: u64) -> (r: Self)
        requires
            n * TB <= u64::MAX,
        ensures
            r.0 == n * TB,
    {
        ByteSizeSi(n * TB)
    }

    /// `n` petabytes.
    pub fn pb(n: u64) -> (r: Self)
        requires
            n * PB <= u64::MAX,
        ensures
            r.0 == n * PB,
    {
        ByteSizeSi(n * PB)
    }

    /// `n` exabytes.
    pub fn eb(n: u64) -> (r: Self)
        requires
            n * EB <= u64::MAX,
        ensures
            r.0 == n * EB,
    {
        ByteSizeSi(n * EB)
    }

    /// The same count, to be shown with binary prefixes.
    pub fn iec(self) -> (r: ByteSizeIec)
        ensures
            r.0 == self.0,
    {
        ByteSizeIec(self.0)
    }

    /// Parses a size; see [`parse_spec`] for what is accepted.
    pub fn parse(s: &str) -> (r: Result<Self, Error>)
        ensures
            r == (match parse_spec(s@) {
                Ok(n) => Ok(ByteSizeSi(n)),
                Err(e) => Err(e),
            }),
    {
        match parse_byte_size(s) {
            Ok(n) => Ok(ByteSizeSi(n)),
            Err(e) => Err(e),
        }
    }

    /// The display text of the size; see [`format_spec`].
    pub fn to_string(&self) -> (r: String)
        ensures
            r@ == format_spec(self.0, Flavor::Decimal),
    {
        format_byte_size(self.0, Flavor::Decimal)
    }
}

impl core::str::FromStr for ByteSizeSi {
    type Err = Error;

    fn from_str(s: &str) -> (r: Result<Self, Error>)
        ensures
            r == (match parse_spec(s@) {
                Ok(n) => Ok(ByteSizeSi(n)),
                Err(e) => Err(e),
            }),
    {
        Self::parse(s)
    }
}

impl From<u64> for ByteSizeSi {
    fn from(n: u64) -> (r: Self) {
        ByteSizeSi(n)
    }
}

impl vstd::std_specs::convert::FromSpecImpl<u64> for ByteSizeSi {
    open spec fn obeys_from_spec() -> bool {
        true
    }

    open spec fn from_spec(n: u64) -> Self {
        ByteSizeSi(n)
    }
}

impl From<ByteSizeSi> for u64 {
    fn from(size: ByteSizeSi) -> (r: u64) {
        size.0
    }
}

impl vstd::std_specs::convert::FromSpecImpl<ByteSizeSi> for u64 {
    open spec fn obeys_from_spec() -> bool {
        true
    }

    open spec fn from_spec(size: ByteSizeSi) -> u64 {
        size.0
    }
}

impl From<ByteSizeIec> for ByteSizeSi {
    fn from(size: ByteSizeIec) -> (r: Self) {
        size.si()
    }
}

impl vstd::std_specs::convert::FromSpecImpl<ByteSizeIec> for ByteSizeSi {
    open spec fn obeys_from_spec() -> bool {
        true
    }

    open spec fn from_spec(size: ByteSizeIec) -> Self {
        ByteSizeSi(size.0)
    }
}

/// A count of bytes shown with binary (1024-based) prefixes.
#[derive(Debug, Clone, Copy, PartialEq, Eq, PartialOrd, Ord, Hash, Default, Structural)]
pub struct ByteSizeIec(pub u64);

impl ByteSizeIec {
    /// `n` bytes.
    pub fn b(n: u64) -> (r: Self)
        ensures
            r.0 == n,
    {
        ByteSizeIec(n)
    }

    /// `n` kibibytes.
    pub fn kib(n: u64) -> (r: Self)
        requires
            n * KIB <= u64::MAX,
        ensures
            r.0 == n * KIB,
    {
        ByteSizeIec(n * KIB)
    }

    /// `n` mebibytes.
    pub fn mib(n: u64) -> (r: Self)
        requires
            n * MIB <= u64::MAX,
        ensures
            r.0 == n * MIB,
    {
        ByteSizeIec(n * MIB)
    }

    /// `n` gibibytes.
    pub fn gib(n: u64) -> (r: Self)
        requires
            n * GIB <= u64::MAX,
        ensures
            r.0 == n * GIB,
    {
        ByteSizeIec(n * GIB)
    }

    /// `n` tebibytes.
    pub fn tib(n: u64) -> (r: Self)
        requires
            n * TIB <= u64::MAX,
        ensures
            r.0 == n * TIB,
    {
        ByteSizeIec(n * TIB)
    }

    /// `n` pebibytes.
    pub fn pib(n: u64) -> (r: Self)
        requires
            n * PIB <= u64::MAX,
        ensures
            r.0 == n * PIB,
    {
        ByteSizeIec(n * PIB)
    }

    /// `n` exbibytes.
    pub fn eib(n: u64) -> (r: Self)
        requires
            n * EIB <= u64::MAX,
        ensures
            r.0 == n * EIB,
    {
        ByteSizeIec(n * EIB)
    }

    /// The same count, to be shown with decimal prefixes.
    pub fn si(self) -> (r: ByteSizeSi)
        ensures
            r.0 == self.0,
    {
        ByteSizeSi(self.0)
    }

    /// Parses a size; see [`parse_spec`] for what is accepted.
    pub fn parse(s: &str) -> (r: Result<Self, Error>)
        ensures
            r == (match parse_spec(s@) {
                Ok(n) => Ok(ByteSizeIec(n)),
                Err(e) => Err(e),
            }),
    {
        match parse_byte_size(s) {
            Ok(n) => Ok(ByteSizeIec(n)),
            Err(e) => Err(e),
        }
    }

    /// The display text of the size; see [`format_spec`].
    pub fn to_string(&self) -> (r: String)
        ensures
            r@ == format_spec(self.0, Flavor::Binary),
    {
        format_byte_size(self.0, Flavor::Binary)
    }
}

impl core::str::FromStr for ByteSizeIec {
    type Err = Error;

    fn from_str(s: &str) -> (r: Result<Self, Error>)
        ensures
            r == (match parse_spec(s@) {
                Ok(n) => Ok(ByteSizeIec(n)),
                Err(e) => Err(e),
            }),
    {
        Self::parse(s)
    }
}

impl From<u64> for ByteSizeIec {
    fn from(n: u64) -> (r: Self) {
        ByteSizeIec(n)
    }
}

impl vstd::std_specs::convert::FromSpecImpl<u64> for ByteSizeIec {
    open spec fn obeys_from_spec() -> bool {
        true
    }

    open spec fn from_spec(n: u64) -> Self {
        ByteSizeIec(n)
    }
}

impl From<ByteSizeIec> for u64 {
    fn from(size: ByteSizeIec) -> (r: u64) {
        size.0
    }
}

impl vstd::std_specs::convert::FromSpecImpl<ByteSizeIec> for u64 {
    open spec fn obeys_from_spec() -> bool {
        true
    }

    open spec fn from_spec(size: ByteSizeIec) -> u64 {
        size.0
    }
}

impl From<ByteSizeSi> for ByteSizeIec {
    fn from(size: ByteSizeSi) -> (r: Self) {
        size.iec()
    }
}

impl vstd::std_specs::convert::FromSpecImpl<ByteSizeSi> for ByteSizeIec {
    open spec fn obeys_from_spec() -> bool {
        true
    }

    open spec fn from_spec(size: ByteSizeSi) -> Self {
        ByteSizeIec(size.0)
    }
}

impl core::ops::Add for ByteSizeSi {
    type Output = Self;

    fn add(self, rhs: Self) -> (r: Self) {
        ByteSizeSi(self.0 + rhs.0)
    }
}

impl vstd::std_specs::ops::AddSpecImpl for ByteSizeSi {
    open spec fn obeys_add_spec() -> bool {
        true
    }

    open spec fn add_req(self, rhs: Self) -> bool {
        self.0 + rhs.0 <= u64::MAX
    }

    open spec fn add_spec(self, rhs: Self) -> Self {
        ByteSizeSi((self.0 + rhs.0) as u64)
    }
}

impl core::ops::Sub for ByteSizeSi {
    type Output = Self;

    fn sub(self, rhs: Self) -> (r: Self) {
        ByteSizeSi(self.0 - rhs.0)
    }
}

impl vstd::std_specs::ops::SubSpecImpl for ByteSizeSi {
    open spec fn obeys_sub_spec() -> bool {
        true
    }

    open spec fn sub_req(self, rhs: Self) -> bool {
        rhs.0 <= self.0
    }

    open spec fn sub_spec(self, rhs: Self) -> Self {
        ByteSizeSi((self.0 - rhs.0) as u64)
    }
}

impl core::ops::Mul<u64> for ByteSizeSi {
    type Output = Self;

    fn mul(self, rhs: u64) -> (r: Self) {
        ByteSizeSi(self.0 * rhs)
    }
}

impl vstd::std_specs::ops::MulSpecImpl<u64> for ByteSizeSi {
    open spec fn obeys_mul_spec() -> bool {
        true
    }

    open spec fn mul_req(self, rhs: u64) -> bool {
        self.0 * rhs <= u64::MAX
    }

    open spec fn mul_spec(self, rhs: u64) -> Self {
        ByteSizeSi((self.0 * rhs) as u64)
    }
}

impl core::ops::Add for ByteSizeIec {
    type Output = Self;

    fn add(self, rhs: Self) -> (r: Self) {
        ByteSizeIec(self.0 + rhs.0)
    }
}

impl vstd::std_specs::ops::AddSpecImpl for ByteSizeIec {
    open spec fn obeys_add_spec() -> bool {
        true
    }

    open spec fn add_req(self, rhs: Self) -> bool {
        self.0 + rhs.0 <= u64::MAX
    }

    open spec fn add_spec(self, rhs: Self) -> Self {
        ByteSizeIec((self.0 + rhs.0) as u64)
    }
}

impl core::ops::Sub for ByteSizeIec {
    type Output = Self;

    fn sub(self, rhs: Self) -> (r: Self) {
        ByteSizeIec(self.0 - rhs.0)
    }
}

impl vstd::std_specs::ops::SubSpecImpl for ByteSizeIec {
    open spec fn obeys_sub_spec() -> bool {
        true
    }

    open spec fn sub_req(self, rhs: Self) -> bool {
        rhs.0 <= self.0
    }

    open spec fn sub_spec(self, rhs: Self) -> Self {
        ByteSizeIec((self.0 - rhs.0) as u64)
    }
}

impl core::ops::Mul<u64> for ByteSizeIec {
    type Output = Self;

    fn mul(self, rhs: u64) -> (r: Self) {
        ByteSizeIec(self.0 * rhs)
    }
}

impl vstd::std_specs::ops::MulSpecImpl<u64> for ByteSizeIec {
    open spec fn obeys_mul_spec() -> bool {
        true
    }

    open spec fn mul_req(self, rhs: u64) -> bool {
        self.0 * rhs <= u64::MAX
    }

    open spec fn mul_spec(self, rhs: u64) -> Self {
        ByteSizeIec((self.0 * rhs) as u64)
    }
}

} // verus!
