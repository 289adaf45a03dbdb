//! Arithmetic on rows and columns: what the numbers inside do, where the
//! result is again sixteen bits wide.

use crate::state::{Col, Row};
use vstd::prelude::*;
use vstd::std_specs::convert::FromSpecImpl;
use vstd::std_specs::ops::{AddSpecImpl, DivSpecImpl, MulSpecImpl, SubSpecImpl};

verus! {

impl From<u16> for Row {
    fn from(value: u16) -> (row: Row) {
        Row(value)
    }
}

impl FromSpecImpl<u16> for Row {
    open spec fn obeys_from_spec() -> bool {
        true
    }

    open spec fn from_spec(value: u16) -> Row {
        Row(value)
    }
}

impl From<Row> for u16 {
    fn from(row: Row) -> (value: u16) {
        row.0
    }
}

impl FromSpecImpl<Row> for u16 {
    open spec fn obeys_from_spec() -> bool {
        true
    }

    open spec fn from_spec(row: Row) -> u16 {
        row.0
    }
}

impl core::ops::Add for Row {
    type Output = Row;

    fn add(self, rhs: Row) -> (sum: Row) {
        Row(self.0 + rhs.0)
    }
}

impl AddSpecImpl for Row {
    open spec fn obeys_add_spec() -> bool {
        true
    }

    open spec fn add_req(self, rhs: Row) -> bool {
        self.0 + rhs.0 <= u16::MAX
    }

    open spec fn add_spec(self, rhs: Row) -> Row {
        Row((self.0 + rhs.0) as u16)
    }
}

impl core::ops::Sub for Row {
    type Output = Row;

    fn sub(self, rhs: Row) -> (difference: Row) {
        Row(self.0 - rhs.0)
    }
}

impl SubSpecImpl for Row {
    open spec fn obeys_sub_spec() -> bool {
        true
    }

    open spec fn sub_req(self, rhs: Row) -> bool {
        self.0 >= rhs.0
    }

    open spec fn sub_spec(self, rhs: Row) -> Row {
        Row((self.0 - rhs.0) as u16)
    }
}

impl core::ops::Mul<u16> for Row {
    type Output = Row;

    fn mul(self, rhs: u16) -> (product: Row) {
        Row(self.0 * rhs)
    }
}

impl MulSpecImpl<u16> for Row {
    open spec fn obeys_mul_spec() -> bool {
        true
    }

    open spec fn mul_req(self, rhs: u16) -> bool {
        self.0 * rhs <= u16::MAX
    }

    open spec fn mul_spec(self, rhs: u16) -> Row {
        Row((self.0 * rhs) as u16)
    }
}

impl core::ops::Div<u16> for Row {
    type Output = Row;

    fn div(self, rhs: u16) -> (quotient: Row) {
        Row(self.0 / rhs)
    }
}

impl DivSpecImpl<u16> for Row {
    open spec fn obeys_div_spec() -> bool {
        true
    }

    open spec fn div_req(self, rhs: u16) -> bool {
        rhs != 0
    }

    open spec fn div_spec(self, rhs: u16) -> Row {
        Row(self.0 / rhs)
    }
}

impl From<u16> for Col {
    fn from(value: u16) -> (col: Col) {
        Col(value)
    }
}

impl FromSpecImpl<u16> for Col {
    open spec fn obeys_from_spec() -> bool {
        true
    }

    open spec fn from_spec(value: u16) -> Col {
        Col(value)
    }
}

impl From<Col> for u16 {
    fn from(col: Col) -> (value: u16) {
        col.0
    }
}

impl FromSpecImpl<Col> for u16 {
    open spec fn obeys_from_spec() -> bool {
        true
    }

    open spec fn from_spec(col: Col) -> u16 {
        col.0
    }
}

impl core::ops::Add for Col {
    type Output = Col;

    fn add(self, rhs: Col) -> (sum: Col) {
        Col(self.0 + rhs.0)
    }
}

impl AddSpecImpl for Col {
    open spec fn obeys_add_spec() -> bool {
        true
    }

    open spec fn add_req(self, rhs: Col) -> bool {
        self.0 + rhs.0 <= u16::MAX
    }

    open spec fn add_spec(self, rhs: Col) -> Col {
        Col((self.0 + rhs.0) as u16)
    }
}

impl core::ops::Sub for Col {
    type Output = Col;

    fn sub(self, rhs: Col) -> (difference: Col) {
        Col(self.0 - rhs.0)
    }
}

impl SubSpecImpl for Col {
    open spec fn obeys_sub_spec() -> bool {
        true
    }

    open spec fn sub_req(self, rhs: Col) -> bool {
        self.0 >= rhs.0
    }

    open spec fn sub_spec(self, rhs: Col) -> Col {
        Col((self.0 - rhs.0) as u16)
    }
}

impl core::ops::Mul<u16> for Col {
    type Output = Col;

    fn mul(self, rhs: u16) -> (product: Col) {
        Col(self.0 * rhs)
    }
}

impl MulSpecImpl<u16> for Col {
    open spec fn obeys_mul_spec() -> bool {
        true
    }

    open spec fn mul_req(self, rhs: u16) -> bool {
        self.0 * rhs <= u16::MAX
    }

    open spec fn mul_spec(self, rhs: u16) -> Col {
        Col((self.0 * rhs) as u16)
    }
}

impl core::ops::Div<u16> for Col {
    type Output = Col;

    fn div(self, rhs: u16) -> (quotient: Col) {
        Col(self.0 / rhs)
    }
}

impl DivSpecImpl<u16> for Col {
    open spec fn obeys_div_spec() -> bool {
        true
    }

    open spec fn div_req(self, rhs: u16) -> bool {
        rhs != 0
    }

    open spec fn div_spec(self, rhs: u16) -> Col {
        Col(self.0 / rhs)
    }
}

} // verus!
