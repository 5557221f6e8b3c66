//! The words of the protocol: element, attribute and class names, as bytes.
use vstd::prelude::*;

verus! {

/// `joined`
pub open spec fn joined_name() -> Seq<u8> {
    seq![106u8, 111, 105, 110, 101, 100]
}

pub fn joined_bytes() -> (r: Vec<u8>)
    ensures
        r@ == joined_name(),
{
    vec![106u8, 111, 105, 110, 101, 100]
}

/// `join`
pub open spec fn join_name() -> Seq<u8> {
    seq![106u8, 111, 105, 110]
}

pub fn join_bytes() -> (r: Vec<u8>)
    ensures
        r@ == join_name(),
{
    vec![106u8, 111, 105, 110]
}

/// `room`
pub open spec fn room_name() -> Seq<u8> {
    seq![114u8, 111, 111, 109]
}

pub fn room_bytes() -> (r: Vec<u8>)
    ensures
        r@ == room_name(),
{
    vec![114u8, 111, 111, 109]
}

/// `left`
pub open spec fn left_name() -> Seq<u8> {
    seq![108u8, 101, 102, 116]
}

pub fn left_bytes() -> (r: Vec<u8>)
    ensures
        r@ == left_name(),
{
    vec![108u8, 101, 102, 116]
}

/// `joinPrepared`
pub open spec fn join_prepared_name() -> Seq<u8> {
    seq![106u8, 111, 105, 110, 80, 114, 101, 112, 97, 114, 101, 100]
}

pub fn join_prepared_bytes() -> (r: Vec<u8>)
    ensures
        r@ == join_prepared_name(),
{
    vec![106u8, 111, 105, 110, 80, 114, 101, 112, 97, 114, 101, 100]
}

/// `errorpacket`
pub open spec fn errorpacket_name() -> Seq<u8> {
    seq![101u8, 114, 114, 111, 114, 112, 97, 99, 107, 101, 116]
}

pub fn errorpacket_bytes() -> (r: Vec<u8>)
    ensures
        r@ == errorpacket_name(),
{
    vec![101u8, 114, 114, 111, 114, 112, 97, 99, 107, 101, 116]
}

/// `close`
pub open spec fn close_name() -> Seq<u8> {
    seq![99u8, 108, 111, 115, 101]
}

pub fn close_bytes() -> (r: Vec<u8>)
    ensures
        r@ == close_name(),
{
    vec![99u8, 108, 111, 115, 101]
}

/// `data`
pub open spec fn data_name() -> Seq<u8> {
    seq![100u8, 97, 116, 97]
}

pub fn data_bytes() -> (r: Vec<u8>)
    ensures
        r@ == data_name(),
{
    vec![100u8, 97, 116, 97]
}

/// `from`
pub open spec fn from_name() -> Seq<u8> {
    seq![102u8, 114, 111, 109]
}

pub fn from_bytes() -> (r: Vec<u8>)
    ensures
        r@ == from_name(),
{
    vec![102u8, 114, 111, 109]
}

/// `to`
pub open spec fn to_name() -> Seq<u8> {
    seq![116u8, 111]
}

pub fn to_bytes() -> (r: Vec<u8>)
    ensures
        r@ == to_name(),
{
    vec![116u8, 111]
}

/// `message`
pub open spec fn message_name() -> Seq<u8> {
    seq![109u8, 101, 115, 115, 97, 103, 101]
}

pub fn message_bytes() -> (r: Vec<u8>)
    ensures
        r@ == message_name(),
{
    vec![109u8, 101, 115, 115, 97, 103, 101]
}

/// `originalRequest`
pub open spec fn original_request_name() -> Seq<u8> {
    seq![111u8, 114, 105, 103, 105, 110, 97, 108, 82, 101, 113, 117, 101, 115, 116]
}

pub fn original_request_bytes() -> (r: Vec<u8>)
    ensures
        r@ == original_request_name(),
{
    vec![111u8, 114, 105, 103, 105, 110, 97, 108, 82, 101, 113, 117, 101, 115, 116]
}

/// `roomId`
pub open spec fn room_id_name() -> Seq<u8> {
    seq![114u8, 111, 111, 109, 73, 100]
}

pub fn room_id_bytes() -> (r: Vec<u8>)
    ensures
        r@ == room_id_name(),
{
    vec![114u8, 111, 111, 109, 73, 100]
}

/// `reservationCode`
pub open spec fn reservation_code_name() -> Seq<u8> {
    seq![114u8, 101, 115, 101, 114, 118, 97, 116, 105, 111, 110, 67, 111, 100, 101]
}

pub fn reservation_code_bytes() -> (r: Vec<u8>)
    ensures
        r@ == reservation_code_name(),
{
    vec![114u8, 101, 115, 101, 114, 118, 97, 116, 105, 111, 110, 67, 111, 100, 101]
}

/// `class`
pub open spec fn class_name() -> Seq<u8> {
    seq![99u8, 108, 97, 115, 115]
}

pub fn class_bytes() -> (r: Vec<u8>)
    ensures
        r@ == class_name(),
{
    vec![99u8, 108, 97, 115, 115]
}

/// `color`
pub open spec fn color_name() -> Seq<u8> {
    seq![99u8, 111, 108, 111, 114]
}

pub fn color_bytes() -> (r: Vec<u8>)
    ensures
        r@ == color_name(),
{
    vec![99u8, 111, 108, 111, 114]
}

/// `q`
pub open spec fn q_name() -> Seq<u8> {
    seq![113u8]
}

pub fn q_bytes() -> (r: Vec<u8>)
    ensures
        r@ == q_name(),
{
    vec![113u8]
}

/// `r`
pub open spec fn r_name() -> Seq<u8> {
    seq![114u8]
}

pub fn r_bytes() -> (r: Vec<u8>)
    ensures
        r@ == r_name(),
{
    vec![114u8]
}

/// `s`
pub open spec fn s_name() -> Seq<u8> {
    seq![115u8]
}

pub fn s_bytes() -> (r: Vec<u8>)
    ensures
        r@ == s_name(),
{
    vec![115u8]
}

/// `momento`
pub open spec fn momento_name() -> Seq<u8> {
    seq![109u8, 111, 109, 101, 110, 116, 111]
}

pub fn momento_bytes() -> (r: Vec<u8>)
    ensures
        r@ == momento_name(),
{
    vec![109u8, 111, 109, 101, 110, 116, 111]
}

/// `moveRequest`
pub open spec fn move_request_name() -> Seq<u8> {
    seq![109u8, 111, 118, 101, 82, 101, 113, 117, 101, 115, 116]
}

pub fn move_request_bytes() -> (r: Vec<u8>)
    ensures
        r@ == move_request_name(),
{
    vec![109u8, 111, 118, 101, 82, 101, 113, 117, 101, 115, 116]
}

/// `move`
pub open spec fn move_name() -> Seq<u8> {
    seq![109u8, 111, 118, 101]
}

pub fn move_bytes() -> (r: Vec<u8>)
    ensures
        r@ == move_name(),
{
    vec![109u8, 111, 118, 101]
}

/// `result`
pub open spec fn result_name() -> Seq<u8> {
    seq![114u8, 101, 115, 117, 108, 116]
}

pub fn result_bytes() -> (r: Vec<u8>)
    ensures
        r@ == result_name(),
{
    vec![114u8, 101, 115, 117, 108, 116]
}

/// `error`
pub open spec fn error_name() -> Seq<u8> {
    seq![101u8, 114, 114, 111, 114]
}

pub fn error_bytes() -> (r: Vec<u8>)
    ensures
        r@ == error_name(),
{
    vec![101u8, 114, 114, 111, 114]
}

/// `protocol`
pub open spec fn protocol_name() -> Seq<u8> {
    seq![112u8, 114, 111, 116, 111, 99, 111, 108]
}

pub fn protocol_bytes() -> (r: Vec<u8>)
    ensures
        r@ == protocol_name(),
{
    vec![112u8, 114, 111, 116, 111, 99, 111, 108]
}

/// `joinRoom`
pub open spec fn join_room_name() -> Seq<u8> {
    seq![106u8, 111, 105, 110, 82, 111, 111, 109]
}

pub fn join_room_bytes() -> (r: Vec<u8>)
    ensures
        r@ == join_room_name(),
{
    vec![106u8, 111, 105, 110, 82, 111, 111, 109]
}

/// `&amp;`
pub open spec fn amp_entity() -> Seq<u8> {
    seq![38u8, 97, 109, 112, 59]
}

pub fn amp_entity_bytes() -> (r: Vec<u8>)
    ensures
        r@ == amp_entity(),
{
    vec![38u8, 97, 109, 112, 59]
}

/// `&quot;`
pub open spec fn quot_entity() -> Seq<u8> {
    seq![38u8, 113, 117, 111, 116, 59]
}

pub fn quot_entity_bytes() -> (r: Vec<u8>)
    ensures
        r@ == quot_entity(),
{
    vec![38u8, 113, 117, 111, 116, 59]
}

/// `&lt;`
pub open spec fn lt_entity() -> Seq<u8> {
    seq![38u8, 108, 116, 59]
}

pub fn lt_entity_bytes() -> (r: Vec<u8>)
    ensures
        r@ == lt_entity(),
{
    vec![38u8, 108, 116, 59]
}

/// `&gt;`
pub open spec fn gt_entity() -> Seq<u8> {
    seq![38u8, 103, 116, 59]
}

pub fn gt_entity_bytes() -> (r: Vec<u8>)
    ensures
        r@ == gt_entity(),
{
    vec![38u8, 103, 116, 59]
}

/// `&apos;`
pub open spec fn apos_entity() -> Seq<u8> {
    seq![38u8, 97, 112, 111, 115, 59]
}

pub fn apos_entity_bytes() -> (r: Vec<u8>)
    ensures
        r@ == apos_entity(),
{
    vec![38u8, 97, 112, 111, 115, 59]
}

} // verus!
