# embeddings-rs

A text-embedding service for `nomic-ai/nomic-embed-text-v1.5`, whose logic is a
verified library.

| Endpoint | Request | Response |
|----------|---------|----------|
| `POST /embed` | `{text, task_type}` | `{vector, dimensions}` |
| `POST /embed-batch` | `{texts, task_type}` | `{vectors, count, dimensions}` |
| `GET /health` | | `{status, model, dimensions, lanes_total, lanes_available}` |

## Layout

- `src/` is the library, verified with Verus:
  - `plan`: splitting a request into sub-batches of bounded memory;
  - `tensor`: laying a sub-batch out for the model;
  - `pooling`: masked mean pooling of the model's output;
  - `tokens`: texts to token rows, with the `tokenizers` crate;
  - `embed`: all of these, from prompts to vectors;
  - `outcome`: what vectors and requests do not depend on;
  - `pool`, `queue`: the pool of inference lanes, over a `tokio` channel;
  - `service`: what the endpoints take, decide and answer;
  - `config`: settings from environment variables.
- `app/` is the program around it: HTTP, the ONNX runtime, sharing the pool between
  tasks.
- `tests/` runs the library.

## Settings

| Variable | Meaning | Default |
|----------|---------|---------|
| `MODEL_DIR` | directory of `model.onnx` and `tokenizer.json` | `models` |
| `EMBEDDING_PORT` | port to listen on | 8402 |
| `EMBEDDING_POOL_SIZE` | lanes, each a copy of the weights in memory | 2 |
| `EMBEDDING_MAX_BATCH_TOKENS` | padded tokens to a model run, at least 8192 | 16384 |
| `EMBEDDING_CPU_ARENA` | `0`, `false`, `no` or `off` turns the runtime's memory arena off | on |

`--dump-openapi` prints the OpenAPI document and exits without loading the model.
