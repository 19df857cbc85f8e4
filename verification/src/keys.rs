//! The fixed byte strings of the wire protocol: envelope tags, field keys,
//! and error messages.  Each literal exists as a spec sequence and as an
//! executable builder proved to produce exactly those bytes.

use vstd::prelude::*;

verus! {

/// The bytes of `Event`.
pub open spec fn tag_event() -> Seq<u8> {
    seq![69u8, 118u8, 101u8, 110u8, 116u8]
}

/// Executable form of [`tag_event`].
pub fn tag_event_vec() -> (r: Vec<u8>) 
    ensures
        r@ == tag_event(),
{
    let mut v: Vec<u8> = Vec::new();
    v.push(69u8);
    v.push(118u8);
    v.push(101u8);
    v.push(110u8);
    v.push(116u8);
    proof { assert(v@ =~= tag_event()); }
    v
}

/// The bytes of `Info`.
pub open spec fn tag_info() -> Seq<u8> {
    seq![73u8, 110u8, 102u8, 111u8]
}

/// Executable form of [`tag_info`].
pub fn tag_info_vec() -> (r: Vec<u8>) 
    ensures
        r@ == tag_info(),
{
    let mut v: Vec<u8> = Vec::new();
    v.push(73u8);
    v.push(110u8);
    v.push(102u8);
    v.push(111u8);
    proof { assert(v@ =~= tag_info()); }
    v
}

/// The bytes of `Error`.
pub open spec fn tag_error() -> Seq<u8> {
    seq![69u8, 114u8, 114u8, 111u8, 114u8]
}

/// Executable form of [`tag_error`].
pub fn tag_error_vec() -> (r: Vec<u8>) 
    ensures
        r@ == tag_error(),
{
    let mut v: Vec<u8> = Vec::new();
    v.push(69u8);
    v.push(114u8);
    v.push(114u8);
    v.push(111u8);
    v.push(114u8);
    proof { assert(v@ =~= tag_error()); }
    v
}

/// The bytes of `Initialization`.
pub open spec fn tag_initialization() -> Seq<u8> {
    seq![73u8, 110u8, 105u8, 116u8, 105u8, 97u8, 108u8, 105u8, 122u8, 97u8, 116u8, 105u8, 111u8, 110u8]
}

/// Executable form of [`tag_initialization`].
pub fn tag_initialization_vec() -> (r: Vec<u8>) 
    ensures
        r@ == tag_initialization(),
{
    let mut v: Vec<u8> = Vec::new();
    v.push(73u8);
    v.push(110u8);
    v.push(105u8);
    v.push(116u8);
    v.push(105u8);
    v.push(97u8);
    v.push(108u8);
    v.push(105u8);
    v.push(122u8);
    v.push(97u8);
    v.push(116u8);
    v.push(105u8);
    v.push(111u8);
    v.push(110u8);
    proof { assert(v@ =~= tag_initialization()); }
    v
}

/// The bytes of `Snapshot`.
pub open spec fn tag_snapshot() -> Seq<u8> {
    seq![83u8, 110u8, 97u8, 112u8, 115u8, 104u8, 111u8, 116u8]
}

/// Executable form of [`tag_snapshot`].
pub fn tag_snapshot_vec() -> (r: Vec<u8>) 
    ensures
        r@ == tag_snapshot(),
{
    let mut v: Vec<u8> = Vec::new();
    v.push(83u8);
    v.push(110u8);
    v.push(97u8);
    v.push(112u8);
    v.push(115u8);
    v.push(104u8);
    v.push(111u8);
    v.push(116u8);
    proof { assert(v@ =~= tag_snapshot()); }
    v
}

/// The bytes of `Counter`.
pub open spec fn tag_counter() -> Seq<u8> {
    seq![67u8, 111u8, 117u8, 110u8, 116u8, 101u8, 114u8]
}

/// Executable form of [`tag_counter`].
pub fn tag_counter_vec() -> (r: Vec<u8>) 
    ensures
        r@ == tag_counter(),
{
    let mut v: Vec<u8> = Vec::new();
    v.push(67u8);
    v.push(111u8);
    v.push(117u8);
    v.push(110u8);
    v.push(116u8);
    v.push(101u8);
    v.push(114u8);
    proof { assert(v@ =~= tag_counter()); }
    v
}

/// The bytes of `Ticker`.
pub open spec fn tag_ticker() -> Seq<u8> {
    seq![84u8, 105u8, 99u8, 107u8, 101u8, 114u8]
}

/// Executable form of [`tag_ticker`].
pub fn tag_ticker_vec() -> (r: Vec<u8>) 
    ensures
        r@ == tag_ticker(),
{
    let mut v: Vec<u8> = Vec::new();
    v.push(84u8);
    v.push(105u8);
    v.push(99u8);
    v.push(107u8);
    v.push(101u8);
    v.push(114u8);
    proof { assert(v@ =~= tag_ticker()); }
    v
}

/// The bytes of `Group`.
pub open spec fn tag_group() -> Seq<u8> {
    seq![71u8, 114u8, 111u8, 117u8, 112u8]
}

/// Executable form of [`tag_group`].
pub fn tag_group_vec() -> (r: Vec<u8>) 
    ensures
        r@ == tag_group(),
{
    let mut v: Vec<u8> = Vec::new();
    v.push(71u8);
    v.push(114u8);
    v.push(111u8);
    v.push(117u8);
    v.push(112u8);
    proof { assert(v@ =~= tag_group()); }
    v
}

/// The bytes of `Add`.
pub open spec fn tag_add() -> Seq<u8> {
    seq![65u8, 100u8, 100u8]
}

/// Executable form of [`tag_add`].
pub fn tag_add_vec() -> (r: Vec<u8>) 
    ensures
        r@ == tag_add(),
{
    let mut v: Vec<u8> = Vec::new();
    v.push(65u8);
    v.push(100u8);
    v.push(100u8);
    proof { assert(v@ =~= tag_add()); }
    v
}

/// The bytes of `Subtract`.
pub open spec fn tag_subtract() -> Seq<u8> {
    seq![83u8, 117u8, 98u8, 116u8, 114u8, 97u8, 99u8, 116u8]
}

/// Executable form of [`tag_subtract`].
pub fn tag_subtract_vec() -> (r: Vec<u8>) 
    ensures
        r@ == tag_subtract(),
{
    let mut v: Vec<u8> = Vec::new();
    v.push(83u8);
    v.push(117u8);
    v.push(98u8);
    v.push(116u8);
    v.push(114u8);
    v.push(97u8);
    v.push(99u8);
    v.push(116u8);
    proof { assert(v@ =~= tag_subtract()); }
    v
}

/// The bytes of `Multiply`.
pub open spec fn tag_multiply() -> Seq<u8> {
    seq![77u8, 117u8, 108u8, 116u8, 105u8, 112u8, 108u8, 121u8]
}

/// Executable form of [`tag_multiply`].
pub fn tag_multiply_vec() -> (r: Vec<u8>) 
    ensures
        r@ == tag_multiply(),
{
    let mut v: Vec<u8> = Vec::new();
    v.push(77u8);
    v.push(117u8);
    v.push(108u8);
    v.push(116u8);
    v.push(105u8);
    v.push(112u8);
    v.push(108u8);
    v.push(121u8);
    proof { assert(v@ =~= tag_multiply()); }
    v
}

/// The bytes of `Wind`.
pub open spec fn tag_wind() -> Seq<u8> {
    seq![87u8, 105u8, 110u8, 100u8]
}

/// Executable form of [`tag_wind`].
pub fn tag_wind_vec() -> (r: Vec<u8>) 
    ensures
        r@ == tag_wind(),
{
    let mut v: Vec<u8> = Vec::new();
    v.push(87u8);
    v.push(105u8);
    v.push(110u8);
    v.push(100u8);
    proof { assert(v@ =~= tag_wind()); }
    v
}

/// The bytes of `Emit`.
pub open spec fn tag_emit() -> Seq<u8> {
    seq![69u8, 109u8, 105u8, 116u8]
}

/// Executable form of [`tag_emit`].
pub fn tag_emit_vec() -> (r: Vec<u8>) 
    ensures
        r@ == tag_emit(),
{
    let mut v: Vec<u8> = Vec::new();
    v.push(69u8);
    v.push(109u8);
    v.push(105u8);
    v.push(116u8);
    proof { assert(v@ =~= tag_emit()); }
    v
}

/// The bytes of `parameter`.
pub open spec fn field_parameter() -> Seq<u8> {
    seq![112u8, 97u8, 114u8, 97u8, 109u8, 101u8, 116u8, 101u8, 114u8]
}

/// Executable form of [`field_parameter`].
pub fn field_parameter_vec() -> (r: Vec<u8>) 
    ensures
        r@ == field_parameter(),
{
    let mut v: Vec<u8> = Vec::new();
    v.push(112u8);
    v.push(97u8);
    v.push(114u8);
    v.push(97u8);
    v.push(109u8);
    v.push(101u8);
    v.push(116u8);
    v.push(101u8);
    v.push(114u8);
    proof { assert(v@ =~= field_parameter()); }
    v
}

/// The bytes of `state`.
pub open spec fn field_state() -> Seq<u8> {
    seq![115u8, 116u8, 97u8, 116u8, 101u8]
}

/// Executable form of [`field_state`].
pub fn field_state_vec() -> (r: Vec<u8>) 
    ensures
        r@ == field_state(),
{
    let mut v: Vec<u8> = Vec::new();
    v.push(115u8);
    v.push(116u8);
    v.push(97u8);
    v.push(116u8);
    v.push(101u8);
    proof { assert(v@ =~= field_state()); }
    v
}

/// The bytes of `event`.
pub open spec fn field_event() -> Seq<u8> {
    seq![101u8, 118u8, 101u8, 110u8, 116u8]
}

/// Executable form of [`field_event`].
pub fn field_event_vec() -> (r: Vec<u8>) 
    ensures
        r@ == field_event(),
{
    let mut v: Vec<u8> = Vec::new();
    v.push(101u8);
    v.push(118u8);
    v.push(101u8);
    v.push(110u8);
    v.push(116u8);
    proof { assert(v@ =~= field_event()); }
    v
}

/// The bytes of `operations`.
pub open spec fn field_operations() -> Seq<u8> {
    seq![111u8, 112u8, 101u8, 114u8, 97u8, 116u8, 105u8, 111u8, 110u8, 115u8]
}

/// Executable form of [`field_operations`].
pub fn field_operations_vec() -> (r: Vec<u8>) 
    ensures
        r@ == field_operations(),
{
    let mut v: Vec<u8> = Vec::new();
    v.push(111u8);
    v.push(112u8);
    v.push(101u8);
    v.push(114u8);
    v.push(97u8);
    v.push(116u8);
    v.push(105u8);
    v.push(111u8);
    v.push(110u8);
    v.push(115u8);
    proof { assert(v@ =~= field_operations()); }
    v
}

/// The bytes of `initial`.
pub open spec fn field_initial() -> Seq<u8> {
    seq![105u8, 110u8, 105u8, 116u8, 105u8, 97u8, 108u8]
}

/// Executable form of [`field_initial`].
pub fn field_initial_vec() -> (r: Vec<u8>) 
    ensures
        r@ == field_initial(),
{
    let mut v: Vec<u8> = Vec::new();
    v.push(105u8);
    v.push(110u8);
    v.push(105u8);
    v.push(116u8);
    v.push(105u8);
    v.push(97u8);
    v.push(108u8);
    proof { assert(v@ =~= field_initial()); }
    v
}

/// The bytes of `accumulator`.
pub open spec fn field_accumulator() -> Seq<u8> {
    seq![97u8, 99u8, 99u8, 117u8, 109u8, 117u8, 108u8, 97u8, 116u8, 111u8, 114u8]
}

/// Executable form of [`field_accumulator`].
pub fn field_accumulator_vec() -> (r: Vec<u8>) 
    ensures
        r@ == field_accumulator(),
{
    let mut v: Vec<u8> = Vec::new();
    v.push(97u8);
    v.push(99u8);
    v.push(99u8);
    v.push(117u8);
    v.push(109u8);
    v.push(117u8);
    v.push(108u8);
    v.push(97u8);
    v.push(116u8);
    v.push(111u8);
    v.push(114u8);
    proof { assert(v@ =~= field_accumulator()); }
    v
}

/// The bytes of `remaining`.
pub open spec fn field_remaining() -> Seq<u8> {
    seq![114u8, 101u8, 109u8, 97u8, 105u8, 110u8, 105u8, 110u8, 103u8]
}

/// Executable form of [`field_remaining`].
pub fn field_remaining_vec() -> (r: Vec<u8>) 
    ensures
        r@ == field_remaining(),
{
    let mut v: Vec<u8> = Vec::new();
    v.push(114u8);
    v.push(101u8);
    v.push(109u8);
    v.push(97u8);
    v.push(105u8);
    v.push(110u8);
    v.push(105u8);
    v.push(110u8);
    v.push(103u8);
    proof { assert(v@ =~= field_remaining()); }
    v
}

/// The bytes of `persistent`.
pub open spec fn field_persistent() -> Seq<u8> {
    seq![112u8, 101u8, 114u8, 115u8, 105u8, 115u8, 116u8, 101u8, 110u8, 116u8]
}

/// Executable form of [`field_persistent`].
pub fn field_persistent_vec() -> (r: Vec<u8>) 
    ensures
        r@ == field_persistent(),
{
    let mut v: Vec<u8> = Vec::new();
    v.push(112u8);
    v.push(101u8);
    v.push(114u8);
    v.push(115u8);
    v.push(105u8);
    v.push(115u8);
    v.push(116u8);
    v.push(101u8);
    v.push(110u8);
    v.push(116u8);
    proof { assert(v@ =~= field_persistent()); }
    v
}

/// The bytes of `tag`.
pub open spec fn field_tag() -> Seq<u8> {
    seq![116u8, 97u8, 103u8]
}

/// Executable form of [`field_tag`].
pub fn field_tag_vec() -> (r: Vec<u8>) 
    ensures
        r@ == field_tag(),
{
    let mut v: Vec<u8> = Vec::new();
    v.push(116u8);
    v.push(97u8);
    v.push(103u8);
    proof { assert(v@ =~= field_tag()); }
    v
}

/// The bytes of `children`.
pub open spec fn field_children() -> Seq<u8> {
    seq![99u8, 104u8, 105u8, 108u8, 100u8, 114u8, 101u8, 110u8]
}

/// Executable form of [`field_children`].
pub fn field_children_vec() -> (r: Vec<u8>) 
    ensures
        r@ == field_children(),
{
    let mut v: Vec<u8> = Vec::new();
    v.push(99u8);
    v.push(104u8);
    v.push(105u8);
    v.push(108u8);
    v.push(100u8);
    v.push(114u8);
    v.push(101u8);
    v.push(110u8);
    proof { assert(v@ =~= field_children()); }
    v
}

/// The bytes of `tick`.
pub open spec fn msg_tick() -> Seq<u8> {
    seq![116u8, 105u8, 99u8, 107u8]
}

/// Executable form of [`msg_tick`].
pub fn msg_tick_vec() -> (r: Vec<u8>) 
    ensures
        r@ == msg_tick(),
{
    let mut v: Vec<u8> = Vec::new();
    v.push(116u8);
    v.push(105u8);
    v.push(99u8);
    v.push(107u8);
    proof { assert(v@ =~= msg_tick()); }
    v
}

/// The bytes of `update_limit_exceeded`.
pub open spec fn msg_update_limit_exceeded() -> Seq<u8> {
    seq![117u8, 112u8, 100u8, 97u8, 116u8, 101u8, 95u8, 108u8, 105u8, 109u8, 105u8, 116u8, 95u8, 101u8, 120u8, 99u8, 101u8, 101u8, 100u8, 101u8, 100u8]
}

/// Executable form of [`msg_update_limit_exceeded`].
pub fn msg_update_limit_exceeded_vec() -> (r: Vec<u8>) 
    ensures
        r@ == msg_update_limit_exceeded(),
{
    let mut v: Vec<u8> = Vec::new();
    v.push(117u8);
    v.push(112u8);
    v.push(100u8);
    v.push(97u8);
    v.push(116u8);
    v.push(101u8);
    v.push(95u8);
    v.push(108u8);
    v.push(105u8);
    v.push(109u8);
    v.push(105u8);
    v.push(116u8);
    v.push(95u8);
    v.push(101u8);
    v.push(120u8);
    v.push(99u8);
    v.push(101u8);
    v.push(101u8);
    v.push(100u8);
    v.push(101u8);
    v.push(100u8);
    proof { assert(v@ =~= msg_update_limit_exceeded()); }
    v
}

/// The bytes of `request_decode_error`.
pub open spec fn msg_request_decode_error() -> Seq<u8> {
    seq![114u8, 101u8, 113u8, 117u8, 101u8, 115u8, 116u8, 95u8, 100u8, 101u8, 99u8, 111u8, 100u8, 101u8, 95u8, 101u8, 114u8, 114u8, 111u8, 114u8]
}

/// Executable form of [`msg_request_decode_error`].
pub fn msg_request_decode_error_vec() -> (r: Vec<u8>) 
    ensures
        r@ == msg_request_decode_error(),
{
    let mut v: Vec<u8> = Vec::new();
    v.push(114u8);
    v.push(101u8);
    v.push(113u8);
    v.push(117u8);
    v.push(101u8);
    v.push(115u8);
    v.push(116u8);
    v.push(95u8);
    v.push(100u8);
    v.push(101u8);
    v.push(99u8);
    v.push(111u8);
    v.push(100u8);
    v.push(101u8);
    v.push(95u8);
    v.push(101u8);
    v.push(114u8);
    v.push(114u8);
    v.push(111u8);
    v.push(114u8);
    proof { assert(v@ =~= msg_request_decode_error()); }
    v
}

/// The bytes of `parameter_decode_error`.
pub open spec fn msg_parameter_decode_error() -> Seq<u8> {
    seq![112u8, 97u8, 114u8, 97u8, 109u8, 101u8, 116u8, 101u8, 114u8, 95u8, 100u8, 101u8, 99u8, 111u8, 100u8, 101u8, 95u8, 101u8, 114u8, 114u8, 111u8, 114u8]
}

/// Executable form of [`msg_parameter_decode_error`].
pub fn msg_parameter_decode_error_vec() -> (r: Vec<u8>) 
    ensures
        r@ == msg_parameter_decode_error(),
{
    let mut v: Vec<u8> = Vec::new();
    v.push(112u8);
    v.push(97u8);
    v.push(114u8);
    v.push(97u8);
    v.push(109u8);
    v.push(101u8);
    v.push(116u8);
    v.push(101u8);
    v.push(114u8);
    v.push(95u8);
    v.push(100u8);
    v.push(101u8);
    v.push(99u8);
    v.push(111u8);
    v.push(100u8);
    v.push(101u8);
    v.push(95u8);
    v.push(101u8);
    v.push(114u8);
    v.push(114u8);
    v.push(111u8);
    v.push(114u8);
    proof { assert(v@ =~= msg_parameter_decode_error()); }
    v
}

/// The bytes of `state_decode_error`.
pub open spec fn msg_state_decode_error() -> Seq<u8> {
    seq![115u8, 116u8, 97u8, 116u8, 101u8, 95u8, 100u8, 101u8, 99u8, 111u8, 100u8, 101u8, 95u8, 101u8, 114u8, 114u8, 111u8, 114u8]
}

/// Executable form of [`msg_state_decode_error`].
pub fn msg_state_decode_error_vec() -> (r: Vec<u8>) 
    ensures
        r@ == msg_state_decode_error(),
{
    let mut v: Vec<u8> = Vec::new();
    v.push(115u8);
    v.push(116u8);
    v.push(97u8);
    v.push(116u8);
    v.push(101u8);
    v.push(95u8);
    v.push(100u8);
    v.push(101u8);
    v.push(99u8);
    v.push(111u8);
    v.push(100u8);
    v.push(101u8);
    v.push(95u8);
    v.push(101u8);
    v.push(114u8);
    v.push(114u8);
    v.push(111u8);
    v.push(114u8);
    proof { assert(v@ =~= msg_state_decode_error()); }
    v
}

} // verus!