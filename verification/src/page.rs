//! Pages and the values under which they are stored.

use vstd::prelude::*;

use crate::error::PageValueErr;

verus! {

/// Number of bytes in a page.
pub const PAGESIZE: usize = 4096;

/// The single byte stored for a page that the remote holds and that has not
/// been fetched.
pub const PENDING_MARK: u8 = 0x50;

/// One page of a volume: exactly `PAGESIZE` bytes.
#[derive(Debug, PartialEq, Eq)]
pub struct Page {
    bytes: Vec<u8>,
}

impl View for Page {
    type V = Seq<u8>;

    closed spec fn view(&self) -> Seq<u8> {
        self.bytes@
    }
}

impl Clone for Page {
    fn clone(&self) -> (page: Page)
        ensures
            page@ == self@,
    {
        proof {
            use_type_invariant(self);
        }
        let bytes = self.bytes.clone();
        assert(bytes@ =~= self.bytes@);
        Page { bytes }
    }
}

impl Page {
    #[verifier::type_invariant]
    spec fn inv(self) -> bool {
        self.bytes@.len() == PAGESIZE
    }

    /// Makes a page of bytes that have the length of one.
    pub fn from_vec(bytes: Vec<u8>) -> (page: Option<Page>)
        ensures
            page is Some <==> bytes@.len() == PAGESIZE,
            page matches Some(p) ==> p@ == bytes@,
    {
        if bytes.len() == PAGESIZE {
            Some(Page { bytes })
        } else {
            None
        }
    }

    /// Copies a page out of bytes that have the length of one.
    pub fn from_slice(bytes: &[u8]) -> (page: Option<Page>)
        ensures
            page is Some <==> bytes@.len() == PAGESIZE,
            page matches Some(p) ==> p@ == bytes@,
    {
        if bytes.len() == PAGESIZE {
            let mut copy: Vec<u8> = Vec::new();
            let mut next: usize = 0;
            while next < bytes.len()
                invariant
                    next <= bytes@.len(),
                    copy@ == bytes@.subrange(0, next as int),
                decreases bytes@.len() - next,
            {
                copy.push(bytes[next]);
                assert(bytes@.subrange(0, next + 1) =~= bytes@.subrange(0, next as int).push(
                    bytes@[next as int],
                ));
                next += 1;
            }
            assert(bytes@.subrange(0, bytes@.len() as int) =~= bytes@);
            Some(Page { bytes: copy })
        } else {
            None
        }
    }

    /// The page whose every byte is `value`.
    pub fn filled(value: u8) -> (page: Page)
        ensures
            page@ == Seq::new(PAGESIZE as nat, |i: int| value),
    {
        let mut bytes: Vec<u8> = Vec::new();
        let mut next: usize = 0;
        while next < PAGESIZE
            invariant
                next <= PAGESIZE,
                bytes@ == Seq::new(next as nat, |i: int| value),
            decreases PAGESIZE - next,
        {
            bytes.push(value);
            assert(Seq::new((next + 1) as nat, |i: int| value) =~= Seq::new(
                next as nat,
                |i: int| value,
            ).push(value));
            next += 1;
        }
        Page { bytes }
    }

    /// The page of a volume where nothing was ever written: all zeros.
    pub fn empty() -> (page: Page)
        ensures
            page@ == Seq::new(PAGESIZE as nat, |i: int| 0u8),
    {
        Page::filled(0)
    }

    /// The bytes of the page.
    pub fn as_slice(&self) -> (bytes: &[u8])
        ensures
            bytes@ == self@,
            bytes@.len() == PAGESIZE,
    {
        proof {
            use_type_invariant(self);
        }
        self.bytes.as_slice()
    }

    /// The bytes of the page.
    pub fn into_vec(self) -> (bytes: Vec<u8>)
        ensures
            bytes@ == self@,
            bytes@.len() == PAGESIZE,
    {
        proof {
            use_type_invariant(&self);
        }
        self.bytes
    }
}

/// What is known of a page at one sequence number, as a plain value.
pub enum PageContent {
    /// The remote holds the page; it has not been fetched.
    Pending,
    /// No page has ever been written there.
    Empty,
    /// The bytes of the page.
    Available(Seq<u8>),
}

impl PageContent {
    /// Whether the content is one that is stored: a pending marker or a
    /// page of the right length. `Empty` is what a read gives where
    /// nothing is stored.
    pub open spec fn storable(self) -> bool {
        match self {
            PageContent::Pending => true,
            PageContent::Empty => false,
            PageContent::Available(bytes) => bytes.len() == PAGESIZE,
        }
    }

    /// The stored form: the marker byte, or the page itself.
    pub open spec fn stored(self) -> Seq<u8> {
        match self {
            PageContent::Pending => seq![PENDING_MARK],
            PageContent::Empty => Seq::empty(),
            PageContent::Available(bytes) => bytes,
        }
    }

    /// What a stored value holds, or why it is not a page value. The
    /// length tells a marker from a page.
    pub open spec fn parse(bytes: Seq<u8>) -> Result<PageContent, PageValueErr> {
        if bytes.len() == 1 {
            if bytes[0] == PENDING_MARK {
                Ok(PageContent::Pending)
            } else {
                Err(PageValueErr::InvalidMark)
            }
        } else if bytes.len() == PAGESIZE {
            Ok(PageContent::Available(bytes))
        } else {
            Err(PageValueErr::InvalidLength)
        }
    }

    /// A storable content is read back from its stored form, and what is
    /// read from bytes is storable and has those bytes as its stored form.
    pub proof fn lemma_round_trip(self, bytes: Seq<u8>)
        ensures
            self.storable() ==> PageContent::parse(self.stored()) == Ok::<
                PageContent,
                PageValueErr,
            >(self),
            PageContent::parse(bytes) matches Ok(content) ==> content.storable()
                && content.stored() == bytes,
    {
        if PageContent::parse(bytes) is Ok && bytes.len() == 1 {
            assert(seq![PENDING_MARK] =~= bytes);
        }
    }
}

/// What is known of a page at one sequence number.
#[derive(Debug, PartialEq, Eq)]
pub enum PageValue {
    /// The remote holds the page; it has not been fetched.
    Pending,
    /// No page has ever been written there.
    Empty,
    /// The page.
    Available(Page),
}

impl View for PageValue {
    type V = PageContent;

    open spec fn view(&self) -> PageContent {
        match self {
            PageValue::Pending => PageContent::Pending,
            PageValue::Empty => PageContent::Empty,
            PageValue::Available(page) => PageContent::Available(page@),
        }
    }
}

impl Clone for PageValue {
    fn clone(&self) -> (value: PageValue)
        ensures
            value@ == self@,
    {
        match self {
            PageValue::Pending => PageValue::Pending,
            PageValue::Empty => PageValue::Empty,
            PageValue::Available(page) => PageValue::Available(page.clone()),
        }
    }
}

impl PageValue {
    /// Reads a stored page value.
    pub fn from_bytes(bytes: &[u8]) -> (parsed: Result<PageValue, PageValueErr>)
        ensures
            match PageContent::parse(bytes@) {
                Ok(content) => parsed matches Ok(value) && value@ == content,
                Err(err) => parsed matches Err(e) && e == err,
            },
    {
        if bytes.len() == 1 {
            if bytes[0] == PENDING_MARK {
                Ok(PageValue::Pending)
            } else {
                Err(PageValueErr::InvalidMark)
            }
        } else {
            match Page::from_slice(bytes) {
                Some(page) => Ok(PageValue::Available(page)),
                None => Err(PageValueErr::InvalidLength),
            }
        }
    }

    /// Writes the stored form: the marker byte or the page. `Empty` is
    /// not stored, and has no bytes.
    pub fn to_bytes(&self) -> (bytes: Vec<u8>)
        ensures
            bytes@ == self@.stored(),
    {
        match self {
            PageValue::Pending => {
                let mut bytes: Vec<u8> = Vec::new();
                bytes.push(PENDING_MARK);
                assert(bytes@ =~= seq![PENDING_MARK]);
                bytes
            },
            PageValue::Empty => {
                let bytes: Vec<u8> = Vec::new();
                assert(bytes@ =~= Seq::<u8>::empty());
                bytes
            },
            PageValue::Available(page) => page.clone().into_vec(),
        }
    }

    /// The page that a reader sees: the stored page, zeros where nothing
    /// was written, nothing while the page is pending.
    pub fn try_into_page(self) -> (page: Option<Page>)
        ensures
            match self@ {
                PageContent::Pending => page is None,
                PageContent::Empty => page matches Some(p) && p@ == Seq::new(
                    PAGESIZE as nat,
                    |i: int| 0u8,
                ),
                PageContent::Available(bytes) => page matches Some(p) && p@ == bytes,
            },
    {
        match self {
            PageValue::Pending => None,
            PageValue::Empty => Some(Page::empty()),
            PageValue::Available(page) => Some(page),
        }
    }

    /// Whether the value is one that is stored; a stored page has the
    /// length of a page.
    pub fn is_storable(&self) -> (storable: bool)
        ensures
            storable == self@.storable(),
            storable == !(self is Empty),
    {
        match self {
            PageValue::Pending => true,
            PageValue::Empty => false,
            PageValue::Available(page) => {
                let bytes = page.as_slice();
                true
            },
        }
    }
}

} // verus!
