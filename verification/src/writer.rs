use vstd::prelude::*;

use crate::arrow_model::{fields_model, lemma_fields_model, ArrowField, FieldModel};
use crate::column::arrow_fields_of;
use crate::column_data::{datas_model, ColumnData};
use crate::encode::{all_writable, columns_built, lemma_columns_writable, rows_to_record_batch, values_of};
use crate::error::ParquetError;
use crate::php::PhpValue;
use crate::schema::Schema;

verus! {

/// Where a writer's output goes while it is open.
#[derive(PartialEq, Eq, Structural, Clone, Copy, Debug)]
pub enum WriterMode {
    Closed,
    File,
    Buffer,
}

/// The state a writer keeps besides its Parquet encoder: whether it is open
/// (to a file or to a buffer), the Arrow fields of the schema it was opened
/// with, and the bytes of the last buffer it closed.
pub struct WriterSession {
    mode: WriterMode,
    fields: Vec<ArrowField>,
    buffer: Option<Vec<u8>>,
}

pub struct SessionModel {
    pub mode: WriterMode,
    pub fields: Seq<FieldModel>,
    pub buffer: Option<Seq<u8>>,
}

impl View for WriterSession {
    type V = SessionModel;

    closed spec fn view(&self) -> SessionModel {
        SessionModel {
            mode: self.mode,
            fields: fields_model(self.fields@),
            buffer: match self.buffer {
                Some(b) => Some(b@),
                None => None,
            },
        }
    }
}

impl WriterSession {
    /// The fields a session holds come from a schema, so they can be written.
    #[verifier::type_invariant]
    closed spec fn fields_writable(self) -> bool {
        all_writable(fields_model(self.fields@))
    }
}

/// Opening is refused unless the writer is closed.
pub open spec fn open_error(s: SessionModel) -> Option<ParquetError> {
    if s.mode == WriterMode::Closed {
        None
    } else {
        Some(ParquetError::WriterAlreadyOpen)
    }
}

/// The session after its encoder was opened in the given mode for a schema
/// of the given fields: opening a buffer forgets the previous buffer.
pub open spec fn after_open(s: SessionModel, mode: WriterMode, fields: Seq<FieldModel>) -> SessionModel {
    if mode == WriterMode::Buffer {
        SessionModel { mode, fields, buffer: None }
    } else {
        SessionModel { mode, fields, ..s }
    }
}

/// Whether a batch of `rows` rows is to be encoded: an empty batch is
/// skipped, any other is refused while closed.
pub open spec fn batch_decision(s: SessionModel, rows: nat) -> Result<bool, ParquetError> {
    if rows == 0 {
        Ok(false)
    } else if s.mode == WriterMode::Closed {
        Err(ParquetError::WriterNotOpen)
    } else {
        Ok(true)
    }
}

/// What closing decides: the mode that was open, or a refusal when already
/// closed. The session is closed afterwards either way.
pub open spec fn close_decision(s: SessionModel) -> Result<WriterMode, ParquetError> {
    if s.mode == WriterMode::Closed {
        Err(ParquetError::WriterAlreadyClosed)
    } else {
        Ok(s.mode)
    }
}

impl WriterSession {
    /// A closed session without a buffer.
    pub fn new() -> (s: WriterSession)
        ensures
            s@ == (SessionModel { mode: WriterMode::Closed, fields: Seq::empty(), buffer: None }),
    {
        let s = WriterSession { mode: WriterMode::Closed, fields: Vec::new(), buffer: None };
        assert(fields_model(s.fields@) =~= Seq::<FieldModel>::empty());
        s
    }

    /// The current mode.
    pub fn mode(&self) -> (m: WriterMode)
        ensures
            m == self@.mode,
    {
        self.mode
    }

    /// Whether the writer may be opened.
    pub fn check_open(&self) -> (r: Result<(), ParquetError>)
        ensures
            match open_error(self@) {
                Some(e) => r == Err::<(), ParquetError>(e),
                None => r is Ok,
            },
    {
        if self.mode == WriterMode::Closed {
            Ok(())
        } else {
            Err(ParquetError::WriterAlreadyOpen)
        }
    }

    /// Records that the encoder was opened in `mode` for `schema`.
    pub fn opened(&mut self, mode: WriterMode, schema: &Schema)
        requires
            old(self)@.mode == WriterMode::Closed,
            mode != WriterMode::Closed,
        ensures
            final(self)@ == after_open(old(self)@, mode, arrow_fields_of(schema@)),
    {
        proof {
            use_type_invariant(&*self);
        }
        let fields = schema.to_arrow_schema();
        proof {
            lemma_columns_writable(schema@);
        }
        self.mode = mode;
        self.fields = fields;
        if mode == WriterMode::Buffer {
            self.buffer = None;
        }
    }

    /// Whether a batch of `rows` rows is to be encoded.
    pub fn batch(&self, rows: usize) -> (r: Result<bool, ParquetError>)
        ensures
            r == batch_decision(self@, rows as nat),
    {
        if rows == 0 {
            Ok(false)
        } else if self.mode == WriterMode::Closed {
            Err(ParquetError::WriterNotOpen)
        } else {
            Ok(true)
        }
    }

    /// The columns a batch of rows makes: `None` for an empty batch (nothing
    /// to write), refused while the writer is closed, otherwise the columns
    /// of the schema the writer was opened with, built as `columns_built`
    /// says.
    pub fn prepare_batch(&self, rows: &Vec<PhpValue>) -> (r: Result<Option<Vec<ColumnData>>, ParquetError>)
        ensures
            match batch_decision(self@, rows.len() as nat) {
                Err(e) => r matches Err(x) && x == e,
                Ok(false) => r matches Ok(None),
                Ok(true) => match columns_built(values_of(rows@), self@.fields, self@.fields.len() as int) {
                    Ok(cs) => r matches Ok(Some(x)) && datas_model(x@) == cs,
                    Err(e) => r matches Err(x) && x@ == e,
                },
            },
    {
        proof {
            use_type_invariant(self);
            lemma_fields_model(self.fields@);
        }
        match self.batch(rows.len()) {
            Err(e) => Err(e),
            Ok(false) => Ok(None),
            Ok(true) => match rows_to_record_batch(rows, &self.fields) {
                Ok(columns) => Ok(Some(columns)),
                Err(e) => Err(e),
            },
        }
    }

    /// Closes the session: the mode that was open, or a refusal when already
    /// closed.
    pub fn close(&mut self) -> (r: Result<WriterMode, ParquetError>)
        ensures
            r == close_decision(old(self)@),
            final(self)@ == (SessionModel { mode: WriterMode::Closed, ..old(self)@ }),
    {
        proof {
            use_type_invariant(&*self);
        }
        let prev = self.mode;
        self.mode = WriterMode::Closed;
        if prev == WriterMode::Closed {
            Err(ParquetError::WriterAlreadyClosed)
        } else {
            Ok(prev)
        }
    }

    /// Keeps the bytes of a closed buffer.
    pub fn buffer_closed(&mut self, bytes: Vec<u8>)
        ensures
            final(self)@ == (SessionModel { buffer: Some(bytes@), ..old(self)@ }),
    {
        proof {
            use_type_invariant(&*self);
        }
        self.buffer = Some(bytes);
    }

    /// A copy of the last closed buffer; refused when there is none.
    pub fn get_buffer(&self) -> (r: Result<Vec<u8>, ParquetError>)
        ensures
            match self@.buffer {
                Some(b) => r matches Ok(v) && v@ == b,
                None => r == Err::<Vec<u8>, ParquetError>(ParquetError::NoBuffer),
            },
    {
        match &self.buffer {
            Some(b) => Ok(b.clone()),
            None => Err(ParquetError::NoBuffer),
        }
    }

    /// Takes the last closed buffer out of the session; refused when there is
    /// none.
    pub fn take_buffer(&mut self) -> (r: Result<Vec<u8>, ParquetError>)
        ensures
            match old(self)@.buffer {
                Some(b) => r matches Ok(v) && v@ == b,
                None => r == Err::<Vec<u8>, ParquetError>(ParquetError::BufferMissing),
            },
            final(self)@ == (SessionModel { buffer: None, ..old(self)@ }),
    {
        proof {
            use_type_invariant(&*self);
        }
        let r = match &self.buffer {
            Some(b) => Ok(b.clone()),
            None => Err(ParquetError::BufferMissing),
        };
        self.buffer = None;
        r
    }
}

/// Opening a closed writer succeeds, and a writer that was opened refuses a
/// second `open` until it is closed; closing it then reports the mode it was
/// opened in and leaves it closed, so that closing again is refused.
pub proof fn law_open_close(s: SessionModel, mode: WriterMode, fields: Seq<FieldModel>)
    requires
        s.mode == WriterMode::Closed,
        mode != WriterMode::Closed,
    ensures
        open_error(s) is None,
        open_error(after_open(s, mode, fields)) == Some(ParquetError::WriterAlreadyOpen),
        close_decision(after_open(s, mode, fields)) == Ok::<WriterMode, ParquetError>(mode),
        close_decision(SessionModel { mode: WriterMode::Closed, ..after_open(s, mode, fields) }) == Err::<
            WriterMode,
            ParquetError,
        >(ParquetError::WriterAlreadyClosed),
{
}

/// A writer accepts non-empty batches exactly while it is open, and skips
/// empty batches in every state.
pub proof fn law_batches(s: SessionModel, rows: nat)
    ensures
        rows == 0 ==> batch_decision(s, rows) == Ok::<bool, ParquetError>(false),
        rows > 0 ==> (batch_decision(s, rows) is Ok <==> s.mode != WriterMode::Closed),
{
}

} // verus!
