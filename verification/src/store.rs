use crate::addressing::ContentId;
use crate::errors::ApiError;
use vstd::hash_map::StringHashMap;
use vstd::prelude::*;
use vstd::slice::slice_to_vec;

verus! {

/// The unit of stored content: an identifier plus its raw bytes. Constructed
/// by the put pipeline and owned exclusively until handed to the store.
pub struct Block {
    pub id: ContentId,
    pub data: Vec<u8>,
}

/// An in-memory block store, keyed by canonical identifier text. Its view is
/// the map from identifier text to stored bytes.
pub struct MemStore {
    blocks: StringHashMap<Vec<u8>>,
}

impl View for MemStore {
    type V = Map<Seq<char>, Seq<u8>>;

    closed spec fn view(&self) -> Map<Seq<char>, Seq<u8>> {
        self.blocks@.map_values(|v: Vec<u8>| v@)
    }
}

impl MemStore {
    /// An empty store.
    pub fn new() -> (r: Self)
        ensures
            r@ == Map::<Seq<char>, Seq<u8>>::empty(),
    {
        let r = MemStore { blocks: StringHashMap::new() };
        proof {
            assert(r@ =~= Map::<Seq<char>, Seq<u8>>::empty());
        }
        r
    }

    /// Stores a block under its identifier's canonical text; an identical
    /// block already present is simply overwritten with the same bytes.
    pub fn put_block(&mut self, block: Block)
        ensures
            final(self)@ == old(self)@.insert(block.id.text@, block.data@),
    {
        let Block { id, data } = block;
        let ghost data_view = data@;
        self.blocks.insert(id.text, data);
        proof {
            assert(self@ =~= old(self)@.insert(id.text@, data_view));
        }
    }

    /// Retrieves the bytes stored under an identifier, or reports that the
    /// store holds none.
    pub fn get_block(&self, id: &str) -> (r: Result<Vec<u8>, ApiError>)
        ensures
            r is Ok <==> self@.contains_key(id@),
            r matches Ok(d) ==> d@ == self@[id@],
            r is Err ==> r == Err::<Vec<u8>, ApiError>(ApiError::NotFound),
    {
        match self.blocks.get(id) {
            Some(v) => Ok(slice_to_vec(v.as_slice())),
            None => Err(ApiError::NotFound),
        }
    }

    /// Removes the block stored under an identifier; removing an absent
    /// identifier fails and leaves the store unchanged.
    pub fn remove_block(&mut self, id: &str) -> (r: Result<(), ApiError>)
        ensures
            r is Ok <==> old(self)@.contains_key(id@),
            final(self)@ == old(self)@.remove(id@),
            r is Err ==> r == Err::<(), ApiError>(ApiError::NotFound),
    {
        let present = self.blocks.contains_key(id);
        self.blocks.remove(id);
        proof {
            assert(self@ =~= old(self)@.remove(id@));
        }
        if present {
            Ok(())
        } else {
            Err(ApiError::NotFound)
        }
    }

    /// How many blocks the store holds.
    pub fn len(&self) -> (n: usize)
        ensures
            n == self@.len(),
    {
        proof {
            vstd::hash_map::axiom_string_hash_map_spec_len(&self.blocks);
            assert(self.blocks@.dom() =~= self@.dom());
        }
        self.blocks.len()
    }
}

} // verus!
