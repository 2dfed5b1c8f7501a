//! Fields read from a byte string at a cursor.
use vstd::prelude::*;

use crate::bytes::{get_i16, get_i32, get_u16, get_u32, le16, le32, signed16, signed32};
use super::error::SrsV2Error;

verus! {

/// What a read from a byte string gave, and where the cursor stands after it.
pub struct Read<T> {
    pub value: Result<T, SrsV2Error>,
    pub next: int,
}

/// A byte at the cursor.
pub open spec fn take_u8(data: Seq<u8>, cur: int) -> Read<int> {
    if cur >= data.len() {
        Read { value: Err(SrsV2Error::Truncated), next: cur }
    } else {
        Read { value: Ok(data[cur] as int), next: cur + 1 }
    }
}

/// An unsigned 16-bit field at the cursor.
pub open spec fn take_u16(data: Seq<u8>, cur: int) -> Read<int> {
    if cur + 2 > data.len() {
        Read { value: Err(SrsV2Error::Truncated), next: cur }
    } else {
        Read { value: Ok(le16(data, cur)), next: cur + 2 }
    }
}

/// A signed 16-bit field at the cursor.
pub open spec fn take_i16(data: Seq<u8>, cur: int) -> Read<int> {
    if cur + 2 > data.len() {
        Read { value: Err(SrsV2Error::Truncated), next: cur }
    } else {
        Read { value: Ok(signed16(le16(data, cur))), next: cur + 2 }
    }
}

/// An unsigned 32-bit field at the cursor.
pub open spec fn take_u32(data: Seq<u8>, cur: int) -> Read<int> {
    if cur + 4 > data.len() {
        Read { value: Err(SrsV2Error::Truncated), next: cur }
    } else {
        Read { value: Ok(le32(data, cur)), next: cur + 4 }
    }
}

/// A signed 32-bit field at the cursor.
pub open spec fn take_i32(data: Seq<u8>, cur: int) -> Read<int> {
    if cur + 4 > data.len() {
        Read { value: Err(SrsV2Error::Truncated), next: cur }
    } else {
        Read { value: Ok(signed32(le32(data, cur))), next: cur + 4 }
    }
}

pub fn read_u8(data: &[u8], cur: &mut usize) -> (r: Result<u8, SrsV2Error>)
    ensures
        ({
            let s = take_u8(data@, *old(cur) as int);
            &&& *final(cur) == s.next
            &&& match s.value {
                Ok(v) => r is Ok && r->Ok_0 == v && *final(cur) <= data@.len(),
                Err(e) => r == Err::<u8, SrsV2Error>(e),
            }
        }),
{
    if *cur >= data.len() {
        return Err(SrsV2Error::Truncated);
    }
    let v: u8 = data[*cur];
    *cur += 1;
    Ok(v)
}

pub fn read_u16_le(data: &[u8], cur: &mut usize) -> (r: Result<u16, SrsV2Error>)
    ensures
        ({
            let s = take_u16(data@, *old(cur) as int);
            &&& *final(cur) == s.next
            &&& match s.value {
                Ok(v) => r is Ok && r->Ok_0 == v && *final(cur) <= data@.len(),
                Err(e) => r == Err::<u16, SrsV2Error>(e),
            }
        }),
{
    if *cur >= data.len() || data.len() - *cur < 2 {
        return Err(SrsV2Error::Truncated);
    }
    let v: u16 = get_u16(data, *cur);
    *cur += 2;
    Ok(v)
}

pub fn read_i16(data: &[u8], cur: &mut usize) -> (r: Result<i16, SrsV2Error>)
    ensures
        ({
            let s = take_i16(data@, *old(cur) as int);
            &&& *final(cur) == s.next
            &&& match s.value {
                Ok(v) => r is Ok && r->Ok_0 == v && *final(cur) <= data@.len(),
                Err(e) => r == Err::<i16, SrsV2Error>(e),
            }
        }),
{
    if *cur >= data.len() || data.len() - *cur < 2 {
        return Err(SrsV2Error::Truncated);
    }
    let v: i16 = get_i16(data, *cur);
    *cur += 2;
    Ok(v)
}

pub fn read_u32(data: &[u8], cur: &mut usize) -> (r: Result<u32, SrsV2Error>)
    ensures
        ({
            let s = take_u32(data@, *old(cur) as int);
            &&& *final(cur) == s.next
            &&& match s.value {
                Ok(v) => r is Ok && r->Ok_0 == v && *final(cur) <= data@.len(),
                Err(e) => r == Err::<u32, SrsV2Error>(e),
            }
        }),
{
    if *cur >= data.len() || data.len() - *cur < 4 {
        return Err(SrsV2Error::Truncated);
    }
    let v: u32 = get_u32(data, *cur);
    *cur += 4;
    Ok(v)
}

pub fn read_i32(data: &[u8], cur: &mut usize) -> (r: Result<i32, SrsV2Error>)
    ensures
        ({
            let s = take_i32(data@, *old(cur) as int);
            &&& *final(cur) == s.next
            &&& match s.value {
                Ok(v) => r is Ok && r->Ok_0 == v && *final(cur) <= data@.len(),
                Err(e) => r == Err::<i32, SrsV2Error>(e),
            }
        }),
{
    if *cur >= data.len() || data.len() - *cur < 4 {
        return Err(SrsV2Error::Truncated);
    }
    let v: i32 = get_i32(data, *cur);
    *cur += 4;
    Ok(v)
}

} // verus!
