//! The host side of the ABI: per request it copies the serialized payload
//! into sandbox memory, invokes `apply`, reads the published output buffer,
//! and frees exactly what it owns with exactly the sizes that were
//! allocated — the size-matching discipline is enforced by the allocator
//! contracts, not by convention.

use vstd::prelude::*;

use crate::memory::GuestInterface;
use crate::protocol::{dec_response, enc_request, Request, Response};

verus! {

/// A host handle on one sandbox instance.  Calls are strictly sequential:
/// one in-flight request owns the instance exclusively.
pub struct Program<G: GuestInterface> {
    sandbox: G,
}

impl<G: GuestInterface> Program<G> {
    /// The held sandbox is usable.
    pub closed spec fn wf(&self) -> bool {
        self.sandbox.abi_ok()
    }

    /// The sandbox arena's bump offset, for stating when an exchange fits.
    pub closed spec fn abi_mark(&self) -> int {
        self.sandbox.abi_next()
    }

    /// Take exclusive ownership of a sandbox instance.
    pub fn new(sandbox: G) -> (r: Program<G>)
        requires
            sandbox.abi_ok(),
        ensures
            r.wf(),
    {
        Program { sandbox }
    }

    /// Run one raw exchange: serialize in, apply, copy out, free the
    /// scratch and output buffers.  `Ok` carries exactly the sandbox's
    /// response bytes for the input, and is owed whenever the exchange fits
    /// the 32-bit publishing convention; `Err` is a sandbox fault, fatal
    /// for the request.
    pub fn apply(&mut self, input: &Vec<u8>) -> (r: Result<Vec<u8>, Vec<u8>>)
        requires
            old(self).wf(),
        ensures
            final(self).wf(),
            match r {
                Ok(out) => out@ == G::abi_response(input@),
                Err(_) => true,
            },
            1 <= G::abi_response(input@).len() && old(self).abi_mark() + input@.len() + 9
                + G::abi_response(input@).len() <= u32::MAX ==> r is Ok,
    {
        // input buffer: allocated, filled, and deliberately left to the
        // arena — its ownership passes to the sandbox for the exchange
        let in_len = if input.len() == 0 {
            1
        } else {
            input.len()
        };
        let in_ptr = match self.sandbox.allocate(in_len) {
            Some(p) => p,
            None => {
                return Err(Vec::new());
            },
        };
        self.sandbox.write(in_ptr, input);
        // scratch buffer for the two returned words; the host frees it
        let scratch = match self.sandbox.allocate(8) {
            Some(p) => p,
            None => {
                return Err(Vec::new());
            },
        };
        let ghost pre = self.sandbox;
        proof {
            assert(pre.abi_mem().subrange(in_ptr as int, in_ptr + input@.len()) =~= input@);
        }
        let ok = self.sandbox.apply(in_ptr, input.len(), scratch, scratch + 4);
        proof {
            assert(pre.abi_next() <= old(self).abi_mark() + in_len + 8);
        }
        if !ok {
            return Err(Vec::new());
        }
        let ghost out_model = G::abi_response(input@);
        let out_ptr_w = self.sandbox.read_word(scratch);
        let out_size_w = self.sandbox.read_word(scratch + 4);
        let out_ptr = out_ptr_w as usize;
        let out_size = out_size_w as usize;
        proof {
            assert(out_ptr == pre.abi_next());
            assert(out_size == out_model.len());
        }
        self.sandbox.deallocate(scratch, 8);
        let out = self.sandbox.read(out_ptr, out_size);
        proof {
            assert(out@ =~= out_model);
        }
        // ownership of the output buffer transferred at apply; the size
        // must match the allocation the adapter performed, and does
        self.sandbox.deallocate(out_ptr, out_size);
        Ok(out)
    }

    /// Run one structured request: encode it, exchange raw bytes, decode
    /// the response.  `Ok` is owed whenever the exchange fits the 32-bit
    /// publishing convention and the sandbox's reply decodes as a response.
    pub fn execute_request(&mut self, request: &Request) -> (r: Result<Response, Vec<u8>>)
        requires
            old(self).wf(),
        ensures
            final(self).wf(),
            match r {
                Ok(resp) => dec_response(G::abi_response(enc_request(request@))) == Some(resp@),
                Err(_) => true,
            },
            ({
                let reply = G::abi_response(enc_request(request@));
                1 <= reply.len() && old(self).abi_mark() + enc_request(request@).len() + 9
                    + reply.len() <= u32::MAX && dec_response(reply) is Some ==> r is Ok
            }),
    {
        let encoded = crate::protocol::encode_request(request);
        let raw = match self.apply(&encoded) {
            Ok(raw) => raw,
            Err(m) => {
                return Err(m);
            },
        };
        match crate::protocol::decode_response(&raw) {
            Some(resp) => Ok(resp),
            None => Err(Vec::new()),
        }
    }
}

/// The persistence key for one process of one module: the module name, a
/// double colon, and the process identifier.
pub fn form_key(wasm: &Vec<u8>, process_id: &Vec<u8>) -> (r: Vec<u8>)
    ensures
        r@ == wasm@ + seq![58u8, 58u8] + process_id@,
{
    let mut r = crate::protocol::clone_bytes(wasm);
    r.push(58);
    r.push(58);
    let mut tail = crate::protocol::clone_bytes(process_id);
    r.append(&mut tail);
    proof {
        assert(r@ =~= wasm@ + seq![58u8, 58u8] + process_id@);
    }
    r
}

/// Does this file name carry the sandbox-binary extension: a non-empty
/// stem followed by the suffix?
pub fn has_wasm_extension(name: &Vec<u8>) -> (r: bool)
    ensures
        r <==> name@.len() >= 6 && name@.skip(name@.len() - 5) == seq![
            46u8,
            119u8,
            97u8,
            115u8,
            109u8,
        ],
{
    if name.len() < 6 {
        return false;
    }
    let n = name.len();
    let ok = name[n - 5] == 46 && name[n - 4] == 119 && name[n - 3] == 97 && name[n - 2] == 115
        && name[n - 1] == 109;
    proof {
        let suffix = name@.skip(name@.len() - 5);
        assert(suffix.len() == 5);
        assert(suffix[0] == name@[n - 5]);
        assert(suffix[1] == name@[n - 4]);
        assert(suffix[2] == name@[n - 3]);
        assert(suffix[3] == name@[n - 2]);
        assert(suffix[4] == name@[n - 1]);
        if ok {
            assert(suffix =~= seq![46u8, 119u8, 97u8, 115u8, 109u8]);
        } else {
            assert(suffix != seq![46u8, 119u8, 97u8, 115u8, 109u8]);
        }
    }
    ok
}

/// What a route handler returns: the value, or a status code with an error
/// message.
pub enum HandlerResponse<T> {
    Value(T),
    Error { status_code: u16, error: Vec<u8> },
}

impl<T> HandlerResponse<T> {
    /// Wrap an outcome: a success verbatim, a failure as an internal
    /// server error.
    pub fn from_result(result: Result<T, Vec<u8>>) -> (r: HandlerResponse<T>)
        ensures
            match result {
                Ok(t) => r == HandlerResponse::<T>::Value(t),
                Err(e) => r == (HandlerResponse::<T>::Error { status_code: 500u16, error: e }),
            },
    {
        match result {
            Ok(t) => HandlerResponse::Value(t),
            Err(e) => HandlerResponse::Error { status_code: 500, error: e },
        }
    }
}

} // verus!