//! Elliptic-curve gadgets over emulated prime fields.
//!
//! Values live in a prime field whose modulus is chosen at run time and is
//! below `2^32` (so production fields such as those of bn256 or secp256k1 do
//! not fit; they are emulated by limbs elsewhere). A
//! constraint system records whether every relation enforced so far holds on
//! the witness; the gadgets compute witnesses and enforce the relations that
//! tie them together.
//!
//! - `field`: arithmetic modulo the run-time modulus, inverses and powers.
//! - `gadget`: the constraint system, booleans and field elements.
//! - `curve`: the group law and points of a short-Weierstrass curve.
//! - `ext`: the quadratic extension and points over it.
//! - `projective`: projective points and multiplication on prime-order curves.
//! - `scalar_mul`: scalar decompositions and multiplication on any curve.
//! - `table`: the lookup table of small multiples of a generator.
//! - `sbox`: the fifth-power substitution box and its inverse.
//! - `group_law`, `tangent_law`, `fused_step`: facts about the group law.
pub mod curve;
pub mod ext;
pub mod field;
pub mod fused_step;
pub mod gadget;
pub mod group_law;
pub mod limbs;
pub mod projective;
pub mod sbox;
pub mod scalar_mul;
pub mod table;
pub mod tangent_law;
