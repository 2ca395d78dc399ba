CREATE TABLE users (
    telegram_id BIGINT PRIMARY KEY,
    chat_id BIGINT NOT NULL,
    username TEXT,
    role TEXT NOT NULL DEFAULT 'student',
    group_code TEXT,
    pending_group TEXT,
    flow_state TEXT NOT NULL DEFAULT 'await_group',
    search_kind TEXT,
    daily_notifications_enabled BOOLEAN NOT NULL DEFAULT TRUE,
    created_at TIMESTAMPTZ NOT NULL DEFAULT now(),
    updated_at TIMESTAMPTZ NOT NULL DEFAULT now()
);

CREATE TABLE chat_schedules (
    chat_id BIGINT PRIMARY KEY,
    group_code TEXT NOT NULL,
    configured_by BIGINT NOT NULL,
    updated_at TIMESTAMPTZ NOT NULL DEFAULT now()
);

CREATE TABLE admin_invites (
    token_sha256 TEXT PRIMARY KEY,
    created_by BIGINT NOT NULL REFERENCES users (telegram_id),
    expires_at TIMESTAMPTZ NOT NULL,
    consumed_at TIMESTAMPTZ,
    consumed_by BIGINT REFERENCES users (telegram_id)
);

CREATE TABLE admin_bootstrap_claims (
    claim_key TEXT PRIMARY KEY,
    telegram_id BIGINT NOT NULL REFERENCES users (telegram_id),
    claimed_at TIMESTAMPTZ NOT NULL DEFAULT now()
);

CREATE TABLE schedule_versions (
    id UUID PRIMARY KEY,
    week_start DATE NOT NULL,
    week_end DATE NOT NULL,
    revision INTEGER NOT NULL,
    update_kind TEXT NOT NULL,
    file_name TEXT NOT NULL,
    file_sha256 TEXT NOT NULL,
    source_key TEXT,
    created_by BIGINT NOT NULL REFERENCES users (telegram_id),
    created_at TIMESTAMPTZ NOT NULL DEFAULT now(),
    UNIQUE (week_start, revision)
);

CREATE TABLE schedule_weeks (
    week_start DATE PRIMARY KEY,
    week_end DATE NOT NULL,
    current_version UUID NOT NULL REFERENCES schedule_versions (id),
    updated_at TIMESTAMPTZ NOT NULL DEFAULT now()
);

CREATE TABLE lessons (
    id BIGINT GENERATED ALWAYS AS IDENTITY PRIMARY KEY,
    version_id UUID NOT NULL REFERENCES schedule_versions (id),
    groups TEXT[] NOT NULL,
    lesson_date DATE NOT NULL,
    weekday TEXT NOT NULL,
    lesson_number SMALLINT NOT NULL,
    start_time TEXT NOT NULL,
    end_time TEXT NOT NULL,
    subject TEXT NOT NULL,
    lesson_type TEXT,
    teacher TEXT,
    room TEXT,
    description TEXT NOT NULL
);

CREATE INDEX lessons_version ON lessons (version_id, lesson_date);

CREATE TABLE pending_uploads (
    id UUID PRIMARY KEY,
    uploaded_by BIGINT NOT NULL REFERENCES users (telegram_id),
    file_name TEXT NOT NULL,
    file_sha256 TEXT NOT NULL,
    week_start DATE NOT NULL,
    week_end DATE NOT NULL,
    update_kind TEXT NOT NULL,
    base_version UUID REFERENCES schedule_versions (id),
    diff JSONB NOT NULL,
    parsed_lessons JSONB NOT NULL,
    source_key TEXT,
    status TEXT NOT NULL DEFAULT 'pending',
    created_at TIMESTAMPTZ NOT NULL DEFAULT now(),
    confirmed_at TIMESTAMPTZ
);

CREATE TABLE notification_outbox (
    id BIGINT GENERATED ALWAYS AS IDENTITY PRIMARY KEY,
    telegram_id BIGINT NOT NULL REFERENCES users (telegram_id),
    body TEXT NOT NULL,
    attempts INTEGER NOT NULL DEFAULT 0,
    available_at TIMESTAMPTZ NOT NULL DEFAULT now(),
    claimed_at TIMESTAMPTZ,
    sent_at TIMESTAMPTZ,
    last_error TEXT
);

CREATE TABLE daily_deliveries (
    telegram_id BIGINT NOT NULL REFERENCES users (telegram_id),
    delivery_date DATE NOT NULL,
    kind TEXT NOT NULL,
    PRIMARY KEY (telegram_id, delivery_date, kind)
);
