//! Client-side logic for a data grid's REST interface: a named FIFO queue and
//! a named key-value map, driven over plain HTTP.
//!
//! The library owns the pure part of that protocol: building the URL, picking
//! the HTTP verb and the request body for each operation, rendering numbers as
//! decimal strings, and a reference model of the grid against which the
//! protocol's intended semantics are stated and proved.  The HTTP round trip
//! itself is I/O and lives outside the verified library; transport errors pass
//! through to the caller unchanged, and an absent key or an empty queue comes
//! back as an empty body, indistinguishable from an empty value.

pub mod alist;
pub mod client;
pub mod digits;
pub mod laws;
pub mod model;
