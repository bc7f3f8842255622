//! Fixed byte strings of the wire format, the login protocol and the document queries.
use vstd::prelude::*;
use crate::text::append_bytes;

verus! {

/// A single space.
pub open spec fn sp() -> Seq<u8> {
    seq![32u8]
}

pub fn sp_bytes() -> (r: Vec<u8>)
    ensures
        r@ == sp(),
{
    let a: [u8; 1] = [32];
    assert(a@ == sp());
    let mut r: Vec<u8> = Vec::new();
    append_bytes(&mut r, &a);
    r
}

/// A line feed.
pub open spec fn nl() -> Seq<u8> {
    seq![10u8]
}

pub fn nl_bytes() -> (r: Vec<u8>)
    ensures
        r@ == nl(),
{
    let a: [u8; 1] = [10];
    assert(a@ == nl());
    let mut r: Vec<u8> = Vec::new();
    append_bytes(&mut r, &a);
    r
}

/// The protocol version closing a request line.
pub open spec fn version_line() -> Seq<u8> {
    seq![72u8, 84, 84, 80, 47, 49, 46, 49, 10]
}

pub fn version_line_bytes() -> (r: Vec<u8>)
    ensures
        r@ == version_line(),
{
    let a: [u8; 9] = [72, 84, 84, 80, 47, 49, 46, 49, 10];
    assert(a@ == version_line());
    let mut r: Vec<u8> = Vec::new();
    append_bytes(&mut r, &a);
    r
}

/// The start of the Host header line.
pub open spec fn host_prefix() -> Seq<u8> {
    seq![72u8, 111, 115, 116, 58, 32]
}

pub fn host_prefix_bytes() -> (r: Vec<u8>)
    ensures
        r@ == host_prefix(),
{
    let a: [u8; 6] = [72, 111, 115, 116, 58, 32];
    assert(a@ == host_prefix());
    let mut r: Vec<u8> = Vec::new();
    append_bytes(&mut r, &a);
    r
}

/// The separator between a header name and its value.
pub open spec fn colon_sp() -> Seq<u8> {
    seq![58u8, 32]
}

pub fn colon_sp_bytes() -> (r: Vec<u8>)
    ensures
        r@ == colon_sp(),
{
    let a: [u8; 2] = [58, 32];
    assert(a@ == colon_sp());
    let mut r: Vec<u8> = Vec::new();
    append_bytes(&mut r, &a);
    r
}

/// The start of the Content-Length header line.
pub open spec fn content_length_prefix() -> Seq<u8> {
    seq![67u8, 111, 110, 116, 101, 110, 116, 45, 76, 101, 110, 103, 116, 104, 58, 32]
}

pub fn content_length_prefix_bytes() -> (r: Vec<u8>)
    ensures
        r@ == content_length_prefix(),
{
    let a: [u8; 16] = [67, 111, 110, 116, 101, 110, 116, 45, 76, 101, 110, 103, 116, 104, 58, 32];
    assert(a@ == content_length_prefix());
    let mut r: Vec<u8> = Vec::new();
    append_bytes(&mut r, &a);
    r
}

/// The fixed Accept header line.
pub open spec fn accept_line() -> Seq<u8> {
    seq![65u8, 99, 99, 101, 112, 116, 58, 32, 116, 101, 120, 116, 47, 104, 116, 109, 108, 44, 97, 112, 112, 108, 105, 99, 97, 116, 105, 111, 110, 47, 120, 104, 116, 109, 108, 43, 120, 109, 108, 44, 97, 112, 112, 108, 105, 99, 97, 116, 105, 111, 110, 47, 120, 109, 108, 59, 113, 61, 48, 46, 57, 44, 42, 47, 42, 59, 113, 61, 48, 46, 56, 10]
}

pub fn accept_line_bytes() -> (r: Vec<u8>)
    ensures
        r@ == accept_line(),
{
    let a: [u8; 72] = [65, 99, 99, 101, 112, 116, 58, 32, 116, 101, 120, 116, 47, 104, 116, 109, 108, 44, 97, 112, 112, 108, 105, 99, 97, 116, 105, 111, 110, 47, 120, 104, 116, 109, 108, 43, 120, 109, 108, 44, 97, 112, 112, 108, 105, 99, 97, 116, 105, 111, 110, 47, 120, 109, 108, 59, 113, 61, 48, 46, 57, 44, 42, 47, 42, 59, 113, 61, 48, 46, 56, 10];
    assert(a@ == accept_line());
    let mut r: Vec<u8> = Vec::new();
    append_bytes(&mut r, &a);
    r
}

/// The header name whose lines go to the cookie list.
pub open spec fn set_cookie() -> Seq<u8> {
    seq![83u8, 101, 116, 45, 67, 111, 111, 107, 105, 101]
}

pub fn set_cookie_bytes() -> (r: Vec<u8>)
    ensures
        r@ == set_cookie(),
{
    let a: [u8; 10] = [83, 101, 116, 45, 67, 111, 111, 107, 105, 101];
    assert(a@ == set_cookie());
    let mut r: Vec<u8> = Vec::new();
    append_bytes(&mut r, &a);
    r
}

/// The header that selects the body framing.
pub open spec fn transfer_encoding() -> Seq<u8> {
    seq![84u8, 114, 97, 110, 115, 102, 101, 114, 45, 69, 110, 99, 111, 100, 105, 110, 103]
}

pub fn transfer_encoding_bytes() -> (r: Vec<u8>)
    ensures
        r@ == transfer_encoding(),
{
    let a: [u8; 17] = [84, 114, 97, 110, 115, 102, 101, 114, 45, 69, 110, 99, 111, 100, 105, 110, 103];
    assert(a@ == transfer_encoding());
    let mut r: Vec<u8> = Vec::new();
    append_bytes(&mut r, &a);
    r
}

/// The Transfer-Encoding value for chunked bodies.
pub open spec fn chunked() -> Seq<u8> {
    seq![99u8, 104, 117, 110, 107, 101, 100]
}

pub fn chunked_bytes() -> (r: Vec<u8>)
    ensures
        r@ == chunked(),
{
    let a: [u8; 7] = [99, 104, 117, 110, 107, 101, 100];
    assert(a@ == chunked());
    let mut r: Vec<u8> = Vec::new();
    append_bytes(&mut r, &a);
    r
}

/// The Connection header name.
pub open spec fn connection() -> Seq<u8> {
    seq![67u8, 111, 110, 110, 101, 99, 116, 105, 111, 110]
}

pub fn connection_bytes() -> (r: Vec<u8>)
    ensures
        r@ == connection(),
{
    let a: [u8; 10] = [67, 111, 110, 110, 101, 99, 116, 105, 111, 110];
    assert(a@ == connection());
    let mut r: Vec<u8> = Vec::new();
    append_bytes(&mut r, &a);
    r
}

/// The Connection value that asks for a new connection.
pub open spec fn close() -> Seq<u8> {
    seq![99u8, 108, 111, 115, 101]
}

pub fn close_bytes() -> (r: Vec<u8>)
    ensures
        r@ == close(),
{
    let a: [u8; 5] = [99, 108, 111, 115, 101];
    assert(a@ == close());
    let mut r: Vec<u8> = Vec::new();
    append_bytes(&mut r, &a);
    r
}

/// The redirect target header.
pub open spec fn location() -> Seq<u8> {
    seq![76u8, 111, 99, 97, 116, 105, 111, 110]
}

pub fn location_bytes() -> (r: Vec<u8>)
    ensures
        r@ == location(),
{
    let a: [u8; 8] = [76, 111, 99, 97, 116, 105, 111, 110];
    assert(a@ == location());
    let mut r: Vec<u8> = Vec::new();
    append_bytes(&mut r, &a);
    r
}

/// Server error status.
pub open spec fn status_500() -> Seq<u8> {
    seq![53u8, 48, 48]
}

pub fn status_500_bytes() -> (r: Vec<u8>)
    ensures
        r@ == status_500(),
{
    let a: [u8; 3] = [53, 48, 48];
    assert(a@ == status_500());
    let mut r: Vec<u8> = Vec::new();
    append_bytes(&mut r, &a);
    r
}

/// Not found status.
pub open spec fn status_404() -> Seq<u8> {
    seq![52u8, 48, 52]
}

pub fn status_404_bytes() -> (r: Vec<u8>)
    ensures
        r@ == status_404(),
{
    let a: [u8; 3] = [52, 48, 52];
    assert(a@ == status_404());
    let mut r: Vec<u8> = Vec::new();
    append_bytes(&mut r, &a);
    r
}

/// Forbidden status.
pub open spec fn status_403() -> Seq<u8> {
    seq![52u8, 48, 51]
}

pub fn status_403_bytes() -> (r: Vec<u8>)
    ensures
        r@ == status_403(),
{
    let a: [u8; 3] = [52, 48, 51];
    assert(a@ == status_403());
    let mut r: Vec<u8> = Vec::new();
    append_bytes(&mut r, &a);
    r
}

/// Moved permanently status.
pub open spec fn status_301() -> Seq<u8> {
    seq![51u8, 48, 49]
}

pub fn status_301_bytes() -> (r: Vec<u8>)
    ensures
        r@ == status_301(),
{
    let a: [u8; 3] = [51, 48, 49];
    assert(a@ == status_301());
    let mut r: Vec<u8> = Vec::new();
    append_bytes(&mut r, &a);
    r
}

/// Found status, the sign of a successful login.
pub open spec fn status_302() -> Seq<u8> {
    seq![51u8, 48, 50]
}

pub fn status_302_bytes() -> (r: Vec<u8>)
    ensures
        r@ == status_302(),
{
    let a: [u8; 3] = [51, 48, 50];
    assert(a@ == status_302());
    let mut r: Vec<u8> = Vec::new();
    append_bytes(&mut r, &a);
    r
}

/// The separator after each rendered cookie.
pub open spec fn cookie_sep() -> Seq<u8> {
    seq![59u8, 32]
}

pub fn cookie_sep_bytes() -> (r: Vec<u8>)
    ensures
        r@ == cookie_sep(),
{
    let a: [u8; 2] = [59, 32];
    assert(a@ == cookie_sep());
    let mut r: Vec<u8> = Vec::new();
    append_bytes(&mut r, &a);
    r
}

/// The GET method.
pub open spec fn get() -> Seq<u8> {
    seq![71u8, 69, 84]
}

pub fn get_bytes() -> (r: Vec<u8>)
    ensures
        r@ == get(),
{
    let a: [u8; 3] = [71, 69, 84];
    assert(a@ == get());
    let mut r: Vec<u8> = Vec::new();
    append_bytes(&mut r, &a);
    r
}

/// The POST method.
pub open spec fn post() -> Seq<u8> {
    seq![80u8, 79, 83, 84]
}

pub fn post_bytes() -> (r: Vec<u8>)
    ensures
        r@ == post(),
{
    let a: [u8; 4] = [80, 79, 83, 84];
    assert(a@ == post());
    let mut r: Vec<u8> = Vec::new();
    append_bytes(&mut r, &a);
    r
}

/// The Connection value sent with every request.
pub open spec fn keep_alive() -> Seq<u8> {
    seq![75u8, 101, 101, 112, 45, 65, 108, 105, 118, 101]
}

pub fn keep_alive_bytes() -> (r: Vec<u8>)
    ensures
        r@ == keep_alive(),
{
    let a: [u8; 10] = [75, 101, 101, 112, 45, 65, 108, 105, 118, 101];
    assert(a@ == keep_alive());
    let mut r: Vec<u8> = Vec::new();
    append_bytes(&mut r, &a);
    r
}

/// The request header that carries the cookies.
pub open spec fn cookie() -> Seq<u8> {
    seq![67u8, 111, 111, 107, 105, 101]
}

pub fn cookie_bytes() -> (r: Vec<u8>)
    ensures
        r@ == cookie(),
{
    let a: [u8; 6] = [67, 111, 111, 107, 105, 101];
    assert(a@ == cookie());
    let mut r: Vec<u8> = Vec::new();
    append_bytes(&mut r, &a);
    r
}

/// The Content-Type header name.
pub open spec fn content_type() -> Seq<u8> {
    seq![67u8, 111, 110, 116, 101, 110, 116, 45, 84, 121, 112, 101]
}

pub fn content_type_bytes() -> (r: Vec<u8>)
    ensures
        r@ == content_type(),
{
    let a: [u8; 12] = [67, 111, 110, 116, 101, 110, 116, 45, 84, 121, 112, 101];
    assert(a@ == content_type());
    let mut r: Vec<u8> = Vec::new();
    append_bytes(&mut r, &a);
    r
}

/// The media type of the login form.
pub open spec fn form_type() -> Seq<u8> {
    seq![97u8, 112, 112, 108, 105, 99, 97, 116, 105, 111, 110, 47, 120, 45, 119, 119, 119, 45, 102, 111, 114, 109, 45, 117, 114, 108, 101, 110, 99, 111, 100, 101, 100]
}

pub fn form_type_bytes() -> (r: Vec<u8>)
    ensures
        r@ == form_type(),
{
    let a: [u8; 33] = [97, 112, 112, 108, 105, 99, 97, 116, 105, 111, 110, 47, 120, 45, 119, 119, 119, 45, 102, 111, 114, 109, 45, 117, 114, 108, 101, 110, 99, 111, 100, 101, 100];
    assert(a@ == form_type());
    let mut r: Vec<u8> = Vec::new();
    append_bytes(&mut r, &a);
    r
}

/// The page that serves the login form.
pub open spec fn login_entry_path() -> Seq<u8> {
    seq![47u8, 97, 99, 99, 111, 117, 110, 116, 115, 47, 108, 111, 103, 105, 110, 47, 63, 110, 101, 120, 116, 61, 47, 102, 97, 107, 101, 98, 111, 111, 107, 47]
}

pub fn login_entry_path_bytes() -> (r: Vec<u8>)
    ensures
        r@ == login_entry_path(),
{
    let a: [u8; 32] = [47, 97, 99, 99, 111, 117, 110, 116, 115, 47, 108, 111, 103, 105, 110, 47, 63, 110, 101, 120, 116, 61, 47, 102, 97, 107, 101, 98, 111, 111, 107, 47];
    assert(a@ == login_entry_path());
    let mut r: Vec<u8> = Vec::new();
    append_bytes(&mut r, &a);
    r
}

/// The path the login form is posted to.
pub open spec fn login_path() -> Seq<u8> {
    seq![47u8, 97, 99, 99, 111, 117, 110, 116, 115, 47, 108, 111, 103, 105, 110, 47]
}

pub fn login_path_bytes() -> (r: Vec<u8>)
    ensures
        r@ == login_path(),
{
    let a: [u8; 16] = [47, 97, 99, 99, 111, 117, 110, 116, 115, 47, 108, 111, 103, 105, 110, 47];
    assert(a@ == login_path());
    let mut r: Vec<u8> = Vec::new();
    append_bytes(&mut r, &a);
    r
}

/// The first page of the crawl.
pub open spec fn start_path() -> Seq<u8> {
    seq![47u8, 102, 97, 107, 101, 98, 111, 111, 107, 47]
}

pub fn start_path_bytes() -> (r: Vec<u8>)
    ensures
        r@ == start_path(),
{
    let a: [u8; 10] = [47, 102, 97, 107, 101, 98, 111, 111, 107, 47];
    assert(a@ == start_path());
    let mut r: Vec<u8> = Vec::new();
    append_bytes(&mut r, &a);
    r
}

/// The login form's first field.
pub open spec fn form_username() -> Seq<u8> {
    seq![117u8, 115, 101, 114, 110, 97, 109, 101, 61]
}

pub fn form_username_bytes() -> (r: Vec<u8>)
    ensures
        r@ == form_username(),
{
    let a: [u8; 9] = [117, 115, 101, 114, 110, 97, 109, 101, 61];
    assert(a@ == form_username());
    let mut r: Vec<u8> = Vec::new();
    append_bytes(&mut r, &a);
    r
}

/// The login form's password field.
pub open spec fn form_password() -> Seq<u8> {
    seq![38u8, 112, 97, 115, 115, 119, 111, 114, 100, 61]
}

pub fn form_password_bytes() -> (r: Vec<u8>)
    ensures
        r@ == form_password(),
{
    let a: [u8; 10] = [38, 112, 97, 115, 115, 119, 111, 114, 100, 61];
    assert(a@ == form_password());
    let mut r: Vec<u8> = Vec::new();
    append_bytes(&mut r, &a);
    r
}

/// The login form's anti-forgery field.
pub open spec fn form_token() -> Seq<u8> {
    seq![38u8, 99, 115, 114, 102, 109, 105, 100, 100, 108, 101, 119, 97, 114, 101, 116, 111, 107, 101, 110, 61]
}

pub fn form_token_bytes() -> (r: Vec<u8>)
    ensures
        r@ == form_token(),
{
    let a: [u8; 21] = [38, 99, 115, 114, 102, 109, 105, 100, 100, 108, 101, 119, 97, 114, 101, 116, 111, 107, 101, 110, 61];
    assert(a@ == form_token());
    let mut r: Vec<u8> = Vec::new();
    append_bytes(&mut r, &a);
    r
}

/// The login form's fixed landing path.
pub open spec fn form_next() -> Seq<u8> {
    seq![38u8, 110, 101, 120, 116, 61, 37, 50, 70, 102, 97, 107, 101, 98, 111, 111, 107, 37, 50, 70]
}

pub fn form_next_bytes() -> (r: Vec<u8>)
    ensures
        r@ == form_next(),
{
    let a: [u8; 20] = [38, 110, 101, 120, 116, 61, 37, 50, 70, 102, 97, 107, 101, 98, 111, 111, 107, 37, 50, 70];
    assert(a@ == form_next());
    let mut r: Vec<u8> = Vec::new();
    append_bytes(&mut r, &a);
    r
}

/// The name of the anti-forgery form field.
pub open spec fn token_field() -> Seq<u8> {
    seq![99u8, 115, 114, 102, 109, 105, 100, 100, 108, 101, 119, 97, 114, 101, 116, 111, 107, 101, 110]
}

pub fn token_field_bytes() -> (r: Vec<u8>)
    ensures
        r@ == token_field(),
{
    let a: [u8; 19] = [99, 115, 114, 102, 109, 105, 100, 100, 108, 101, 119, 97, 114, 101, 116, 111, 107, 101, 110];
    assert(a@ == token_field());
    let mut r: Vec<u8> = Vec::new();
    append_bytes(&mut r, &a);
    r
}

/// The class value that marks a result.
pub open spec fn marker_class() -> Seq<u8> {
    seq![115u8, 101, 99, 114, 101, 116, 95, 102, 108, 97, 103]
}

pub fn marker_class_bytes() -> (r: Vec<u8>)
    ensures
        r@ == marker_class(),
{
    let a: [u8; 11] = [115, 101, 99, 114, 101, 116, 95, 102, 108, 97, 103];
    assert(a@ == marker_class());
    let mut r: Vec<u8> = Vec::new();
    append_bytes(&mut r, &a);
    r
}

/// The input element name.
pub open spec fn tag_input() -> Seq<u8> {
    seq![105u8, 110, 112, 117, 116]
}

pub fn tag_input_bytes() -> (r: Vec<u8>)
    ensures
        r@ == tag_input(),
{
    let a: [u8; 5] = [105, 110, 112, 117, 116];
    assert(a@ == tag_input());
    let mut r: Vec<u8> = Vec::new();
    append_bytes(&mut r, &a);
    r
}

/// The anchor element name.
pub open spec fn tag_a() -> Seq<u8> {
    seq![97u8]
}

pub fn tag_a_bytes() -> (r: Vec<u8>)
    ensures
        r@ == tag_a(),
{
    let a: [u8; 1] = [97];
    assert(a@ == tag_a());
    let mut r: Vec<u8> = Vec::new();
    append_bytes(&mut r, &a);
    r
}

/// The name attribute.
pub open spec fn attr_name() -> Seq<u8> {
    seq![110u8, 97, 109, 101]
}

pub fn attr_name_bytes() -> (r: Vec<u8>)
    ensures
        r@ == attr_name(),
{
    let a: [u8; 4] = [110, 97, 109, 101];
    assert(a@ == attr_name());
    let mut r: Vec<u8> = Vec::new();
    append_bytes(&mut r, &a);
    r
}

/// The value attribute.
pub open spec fn attr_value() -> Seq<u8> {
    seq![118u8, 97, 108, 117, 101]
}

pub fn attr_value_bytes() -> (r: Vec<u8>)
    ensures
        r@ == attr_value(),
{
    let a: [u8; 5] = [118, 97, 108, 117, 101];
    assert(a@ == attr_value());
    let mut r: Vec<u8> = Vec::new();
    append_bytes(&mut r, &a);
    r
}

/// The href attribute.
pub open spec fn attr_href() -> Seq<u8> {
    seq![104u8, 114, 101, 102]
}

pub fn attr_href_bytes() -> (r: Vec<u8>)
    ensures
        r@ == attr_href(),
{
    let a: [u8; 4] = [104, 114, 101, 102];
    assert(a@ == attr_href());
    let mut r: Vec<u8> = Vec::new();
    append_bytes(&mut r, &a);
    r
}

/// The class attribute.
pub open spec fn attr_class() -> Seq<u8> {
    seq![99u8, 108, 97, 115, 115]
}

pub fn attr_class_bytes() -> (r: Vec<u8>)
    ensures
        r@ == attr_class(),
{
    let a: [u8; 5] = [99, 108, 97, 115, 115];
    assert(a@ == attr_class());
    let mut r: Vec<u8> = Vec::new();
    append_bytes(&mut r, &a);
    r
}

/// The start of an absolute http link.
pub open spec fn http_prefix() -> Seq<u8> {
    seq![104u8, 116, 116, 112, 58, 47]
}

pub fn http_prefix_bytes() -> (r: Vec<u8>)
    ensures
        r@ == http_prefix(),
{
    let a: [u8; 6] = [104, 116, 116, 112, 58, 47];
    assert(a@ == http_prefix());
    let mut r: Vec<u8> = Vec::new();
    append_bytes(&mut r, &a);
    r
}

/// The start of an absolute https link.
pub open spec fn https_prefix() -> Seq<u8> {
    seq![104u8, 116, 116, 112, 115, 58]
}

pub fn https_prefix_bytes() -> (r: Vec<u8>)
    ensures
        r@ == https_prefix(),
{
    let a: [u8; 6] = [104, 116, 116, 112, 115, 58];
    assert(a@ == https_prefix());
    let mut r: Vec<u8> = Vec::new();
    append_bytes(&mut r, &a);
    r
}

/// The start of a mail link.
pub open spec fn mailto_prefix() -> Seq<u8> {
    seq![109u8, 97, 105, 108, 116, 111]
}

pub fn mailto_prefix_bytes() -> (r: Vec<u8>)
    ensures
        r@ == mailto_prefix(),
{
    let a: [u8; 6] = [109, 97, 105, 108, 116, 111];
    assert(a@ == mailto_prefix());
    let mut r: Vec<u8> = Vec::new();
    append_bytes(&mut r, &a);
    r
}

} // verus!
